//! Building one Bitcoin transaction that pays out of several wallets, and the
//! bookkeeping around it.

pub mod address;
pub mod builder;
pub mod builder_model;
pub mod construction;
pub mod decimal;
pub mod fee_estimation;
pub mod finished;
pub mod keychain;
pub mod laws;
pub mod outpoints;
pub mod placement;
pub mod primitives;
pub mod psbt;
pub mod rounding;
pub mod script;
pub mod signer_error;
pub mod utxo_book;
pub mod wallet_repo;
