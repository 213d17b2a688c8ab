//! A keychain and the wallet that its descriptors make.

use vstd::prelude::*;

use crate::primitives::{KeychainId, KeychainKind, Network};

verus! {

/// Something with a descriptor of the addresses that it receives payments at.
pub trait ToExternalDescriptor {
    fn to_external_descriptor(&self) -> String;
}

/// Something with a descriptor of the addresses that it sends change to.
pub trait ToInternalDescriptor {
    fn to_internal_descriptor(&self) -> String;
}

/// A keychain with descriptors of type `T`.
pub struct KeychainWallet<T> {
    pub network: Network,
    pub keychain_id: KeychainId,
    pub descriptor: T,
}

/// What a wallet is opened with.
pub struct WalletParams {
    pub external_descriptor: String,
    pub internal_descriptor: String,
    pub network: Network,
    /// The keychain whose part of the database the wallet works on.
    pub keychain_id: KeychainId,
}

/// Which address of a wallet is asked for.
#[derive(Debug, Clone, Copy, PartialEq, Eq, Structural)]
pub enum AddressIndex {
    /// One that was never handed out.
    New,
    /// The last one handed out, if nothing was paid to it, else a new one.
    LastUnused,
}

/// The address that change, and the money of a deprecated keychain, go to.
pub const CHANGE_ADDRESS_INDEX: AddressIndex = AddressIndex::LastUnused;

/// The question for an address.
pub struct AddressRequest {
    /// The wallet to ask.
    pub wallet: WalletParams,
    /// The chain that the address is to be on.
    pub keychain: KeychainKind,
    pub index: AddressIndex,
}

impl<T: ToInternalDescriptor + ToExternalDescriptor> KeychainWallet<T> {
    /// Is `params` what the wallet of this keychain is opened with?
    pub open spec fn opened_with(self, params: WalletParams) -> bool {
        &&& call_ensures(
            T::to_external_descriptor,
            (&self.descriptor,),
            params.external_descriptor,
        )
        &&& call_ensures(
            T::to_internal_descriptor,
            (&self.descriptor,),
            params.internal_descriptor,
        )
        &&& params.network == self.network
        &&& params.keychain_id == self.keychain_id
    }

    /// The keychain with the given descriptors.
    pub fn new(network: Network, keychain_id: KeychainId, descriptor: T) -> (res: Self)
        ensures
            res == (KeychainWallet { network, keychain_id, descriptor }),
    {
        KeychainWallet { network, keychain_id, descriptor }
    }

    /// What the wallet of the keychain is opened with.
    pub fn with_wallet(&self) -> (res: WalletParams)
        ensures
            self.opened_with(res),
            res.network == self.network,
            res.keychain_id == self.keychain_id,
            call_ensures(
                T::to_external_descriptor,
                (&self.descriptor,),
                res.external_descriptor,
            ),
            call_ensures(
                T::to_internal_descriptor,
                (&self.descriptor,),
                res.internal_descriptor,
            ),
    {
        WalletParams {
            external_descriptor: self.descriptor.to_external_descriptor(),
            internal_descriptor: self.descriptor.to_internal_descriptor(),
            network: self.network,
            keychain_id: self.keychain_id,
        }
    }

    /// The question for a new address to receive payments at.
    pub fn new_external_address(&self) -> (res: AddressRequest)
        ensures
            self.opened_with(res.wallet),
            res.wallet.network == self.network,
            res.wallet.keychain_id == self.keychain_id,
            call_ensures(
                T::to_external_descriptor,
                (&self.descriptor,),
                res.wallet.external_descriptor,
            ),
            call_ensures(
                T::to_internal_descriptor,
                (&self.descriptor,),
                res.wallet.internal_descriptor,
            ),
            res.keychain == KeychainKind::External,
            res.index == AddressIndex::New,
    {
        AddressRequest {
            wallet: self.with_wallet(),
            keychain: KeychainKind::External,
            index: AddressIndex::New,
        }
    }

    /// The question for a new address to send change to.
    pub fn new_internal_address(&self) -> (res: AddressRequest)
        ensures
            self.opened_with(res.wallet),
            res.wallet.network == self.network,
            res.wallet.keychain_id == self.keychain_id,
            call_ensures(
                T::to_external_descriptor,
                (&self.descriptor,),
                res.wallet.external_descriptor,
            ),
            call_ensures(
                T::to_internal_descriptor,
                (&self.descriptor,),
                res.wallet.internal_descriptor,
            ),
            res.keychain == KeychainKind::Internal,
            res.index == AddressIndex::New,
    {
        AddressRequest {
            wallet: self.with_wallet(),
            keychain: KeychainKind::Internal,
            index: AddressIndex::New,
        }
    }
}

} // verus!
