//! What holds of the wallets and addresses of keychains.

use vstd::prelude::*;

use crate::keychain::{AddressIndex, AddressRequest, KeychainWallet, ToExternalDescriptor};
use crate::keychain::{ToInternalDescriptor, WalletParams, CHANGE_ADDRESS_INDEX};
use crate::primitives::{KeychainId, KeychainKind, Network};

verus! {

/// The wallet of a keychain is opened on the network of the keychain, whichever that is,
/// works on its part of the database, and has its two descriptors, each in its place.
pub proof fn law_wallets_are_opened_as_their_keychains_say<
    T: ToInternalDescriptor + ToExternalDescriptor,
>(keychain: KeychainWallet<T>, params: WalletParams)
    ensures
        keychain.opened_with(params) <==> {
            &&& params.network == keychain.network
            &&& params.keychain_id == keychain.keychain_id
            &&& call_ensures(
                T::to_external_descriptor,
                (&keychain.descriptor,),
                params.external_descriptor,
            )
            &&& call_ensures(
                T::to_internal_descriptor,
                (&keychain.descriptor,),
                params.internal_descriptor,
            )
        },
        call_ensures(KeychainWallet::<T>::with_wallet, (&keychain,), params) ==> {
            &&& params.network == keychain.network
            &&& params.keychain_id == keychain.keychain_id
            &&& call_ensures(
                T::to_external_descriptor,
                (&keychain.descriptor,),
                params.external_descriptor,
            )
            &&& call_ensures(
                T::to_internal_descriptor,
                (&keychain.descriptor,),
                params.internal_descriptor,
            )
        },
{
}

/// A keychain that is made anew keeps the network, the number and the descriptors that it
/// is made from, and so does the wallet that is opened with it.
pub proof fn law_networks_pass_through<T: ToInternalDescriptor + ToExternalDescriptor>(
    network: Network,
    keychain_id: KeychainId,
    descriptor: T,
    keychain: KeychainWallet<T>,
    params: WalletParams,
)
    requires
        call_ensures(KeychainWallet::<T>::new, (network, keychain_id, descriptor), keychain),
        call_ensures(KeychainWallet::<T>::with_wallet, (&keychain,), params),
    ensures
        keychain.descriptor == descriptor,
        params.network == network,
        params.keychain_id == keychain_id,
        call_ensures(
            T::to_external_descriptor,
            (&descriptor,),
            params.external_descriptor,
        ),
        call_ensures(
            T::to_internal_descriptor,
            (&descriptor,),
            params.internal_descriptor,
        ),
{
}

/// Whoever asks for a new address asks the wallet of the keychain, on the network of the
/// keychain, for one that was never handed out: on the external chain to receive payments,
/// on the internal one to send change to.
pub proof fn law_new_addresses_are_asked_of_the_keychain<
    T: ToInternalDescriptor + ToExternalDescriptor,
>(keychain: KeychainWallet<T>, request: AddressRequest)
    requires
        call_ensures(KeychainWallet::<T>::new_external_address, (&keychain,), request)
            || call_ensures(KeychainWallet::<T>::new_internal_address, (&keychain,), request),
    ensures
        request.wallet.network == keychain.network,
        request.wallet.keychain_id == keychain.keychain_id,
        call_ensures(
            T::to_external_descriptor,
            (&keychain.descriptor,),
            request.wallet.external_descriptor,
        ),
        call_ensures(
            T::to_internal_descriptor,
            (&keychain.descriptor,),
            request.wallet.internal_descriptor,
        ),
        request.index == AddressIndex::New,
        call_ensures(KeychainWallet::<T>::new_external_address, (&keychain,), request)
            ==> request.keychain == KeychainKind::External,
        call_ensures(KeychainWallet::<T>::new_internal_address, (&keychain,), request)
            ==> request.keychain == KeychainKind::Internal,
{
}

/// Change goes to the last address that was handed out as long as nothing was paid to it.
pub proof fn law_change_addresses_are_used_up()
    ensures
        CHANGE_ADDRESS_INDEX == AddressIndex::LastUnused,
{
}

} // verus!
