//! Transactions as the wallets hand them out, and the plans that they are asked
//! to build.

use bdk::FeeRate;
use bitcoin::psbt::PartiallySignedTransaction;
use vstd::prelude::*;

use crate::primitives::{OutPoint, PayoutId, Satoshis, Txid};
use crate::script::Address;

verus! {

/// `bdk`'s fee rate, a floating-point number that is only carried along.
#[verifier::external_type_specification]
#[verifier::external_body]
pub struct ExFeeRate(bdk::FeeRate);

/// `bdk`'s error, which is only carried along.
#[verifier::external_type_specification]
#[verifier::external_body]
pub struct ExBdkError(bdk::Error);

/// What a partially signed transaction says of one input. It is only carried
/// along.
#[verifier::external_type_specification]
#[verifier::external_body]
pub struct ExPsbtInput(bitcoin::psbt::Input);

/// A partially signed transaction. It is only carried along.
#[verifier::external_type_specification]
#[verifier::external_body]
pub struct ExPartiallySignedTransaction(bitcoin::psbt::PartiallySignedTransaction);

/// `Clone` of `bitcoin`'s `psbt::Input`, which copies every field: the clone
/// equals what it was made from.
pub assume_specification[ <bitcoin::psbt::Input as Clone>::clone ](
    input: &bitcoin::psbt::Input,
) -> (res: bitcoin::psbt::Input)
    ensures
        res == *input,
;

/// A payment that is asked for: its number, where it goes and how much it is.
pub type TxPayout = (PayoutId, Address, Satoshis);

/// One input of a partially signed transaction.
pub struct PsbtInput {
    /// The output that is spent.
    pub previous_output: OutPoint,
    /// What signers have to know of it.
    pub details: bitcoin::psbt::Input,
}

/// One output of a transaction.
pub struct TxOut {
    pub script_pubkey: Vec<u8>,
    pub value: u64,
}

/// A partially signed transaction, its inputs and outputs laid open.
pub struct Psbt {
    pub inputs: Vec<PsbtInput>,
    pub outputs: Vec<TxOut>,
    pub unsigned: PartiallySignedTransaction,
}

/// What a wallet returns of a transaction that it built.
pub struct BuiltTx {
    pub psbt: Psbt,
    /// The fee of the whole transaction.
    pub fee: u64,
    pub txid: Txid,
}

/// Which parts of a transaction a signature covers.
#[derive(Debug, Clone, Copy, PartialEq, Eq, Structural)]
pub enum SighashType {
    All,
}

/// The parts of a transaction that signatures cover here.
pub const DEFAULT_SIGHASH_TYPE: SighashType = SighashType::All;

/// How the inputs and outputs of a transaction are ordered.
#[derive(Debug, Clone, Copy, PartialEq, Eq, Structural)]
pub enum TxOrdering {
    /// As the wallet likes.
    Default,
    /// Lexicographically, as BIP 69 has it.
    Bip69Lexicographic,
}

/// An output of a planned transaction.
pub struct Recipient {
    pub script_pubkey: Vec<u8>,
    pub amount: u64,
}

impl View for Recipient {
    type V = (Seq<u8>, u64);

    open spec fn view(&self) -> (Seq<u8>, u64) {
        (self.script_pubkey@, self.amount)
    }
}

/// An input of a planned transaction that another wallet owns.
pub struct ForeignUtxo {
    pub outpoint: OutPoint,
    pub details: bitcoin::psbt::Input,
    /// The most that satisfying the input adds to the weight of the transaction.
    pub satisfaction_weight: usize,
}

/// A transaction that a wallet is asked to build.
pub struct TxPlan {
    pub fee_rate: FeeRate,
    /// Outputs of the wallet that must not be spent.
    pub unspendable: Vec<OutPoint>,
    /// Outputs that the transaction has to have.
    pub recipients: Vec<Recipient>,
    /// Inputs of other wallets that the transaction has to have.
    pub foreign_utxos: Vec<ForeignUtxo>,
    /// Spend all that the wallet has.
    pub drain_wallet: bool,
    /// The script that what is left over goes to; the wallet's choice if `None`.
    pub drain_to: Option<Vec<u8>>,
    /// The parts that signatures cover; the wallet's choice if `None`.
    pub sighash: Option<SighashType>,
    pub ordering: TxOrdering,
}

/// The contents of a [`TxPlan`].
#[verifier::ext_equal]
pub struct TxPlanView {
    pub fee_rate: FeeRate,
    pub unspendable: Seq<OutPoint>,
    pub recipients: Seq<(Seq<u8>, u64)>,
    pub foreign_utxos: Seq<ForeignUtxo>,
    pub drain_wallet: bool,
    pub drain_to: Option<Seq<u8>>,
    pub sighash: Option<SighashType>,
    pub ordering: TxOrdering,
}

impl View for TxPlan {
    type V = TxPlanView;

    open spec fn view(&self) -> TxPlanView {
        TxPlanView {
            fee_rate: self.fee_rate,
            unspendable: self.unspendable@,
            recipients: self.recipients@.map_values(|recipient: Recipient| recipient@),
            foreign_utxos: self.foreign_utxos@,
            drain_wallet: self.drain_wallet,
            drain_to: match self.drain_to {
                Some(script) => Some(script@),
                None => None,
            },
            sighash: self.sighash,
            ordering: self.ordering,
        }
    }
}

} // verus!
