//! Keeping record of addresses.

use vstd::prelude::*;

use crate::primitives::{AddressId, KeychainId, KeychainKind, ProfileId};

verus! {

/// An address that is to be recorded. `M` is what is noted beside it.
pub struct NewAddress<M> {
    pub id: AddressId,
    pub address_string: String,
    pub profile_id: ProfileId,
    pub keychain_id: KeychainId,
    pub kind: KeychainKind,
    pub address_idx: u32,
    pub external_id: String,
    pub metadata: Option<M>,
}

/// The chain of an address as the database has it.
#[derive(Debug, Clone, Copy, PartialEq, Eq, Structural)]
pub enum PgKeychainKind {
    External,
    Internal,
}

/// A row of the table of addresses.
pub struct AddressRow<M> {
    pub id: AddressId,
    pub address_string: String,
    pub profile_id: ProfileId,
    pub keychain_id: KeychainId,
    pub kind: PgKeychainKind,
    pub address_index: i32,
    pub external_id: String,
    pub metadata: Option<M>,
}

/// The record of addresses.
pub struct Addresses;

/// The number that a signed column holds for an unsigned one: those that are too
/// large wrap round to negative numbers.
pub open spec fn signed_column(value: u32) -> int {
    if value <= i32::MAX {
        value as int
    } else {
        value - 0x1_0000_0000
    }
}

impl From<KeychainKind> for PgKeychainKind {
    fn from(kind: KeychainKind) -> (res: Self) {
        match kind {
            KeychainKind::External => PgKeychainKind::External,
            KeychainKind::Internal => PgKeychainKind::Internal,
        }
    }
}

impl vstd::std_specs::convert::FromSpecImpl<KeychainKind> for PgKeychainKind {
    open spec fn obeys_from_spec() -> bool {
        true
    }

    open spec fn from_spec(kind: KeychainKind) -> Self {
        match kind {
            KeychainKind::External => PgKeychainKind::External,
            KeychainKind::Internal => PgKeychainKind::Internal,
        }
    }
}

impl Addresses {
    /// The row that records `address`.
    pub fn persist_address<M>(address: NewAddress<M>) -> (res: AddressRow<M>)
        ensures
            res.id == address.id,
            res.address_string == address.address_string,
            res.profile_id == address.profile_id,
            res.keychain_id == address.keychain_id,
            res.kind is External <==> address.kind is External,
            res.address_index == signed_column(address.address_idx),
            res.external_id == address.external_id,
            res.metadata == address.metadata,
    {
        let index: u32 = address.address_idx;
        assert(index <= 0x7fff_ffff ==> index as i32 == index) by (bit_vector);
        assert(index > 0x7fff_ffff ==> index as i32 == index - 0x1_0000_0000) by (bit_vector);
        AddressRow {
            id: address.id,
            address_string: address.address_string,
            profile_id: address.profile_id,
            keychain_id: address.keychain_id,
            kind: PgKeychainKind::from(address.kind),
            address_index: index as i32,
            external_id: address.external_id,
            metadata: address.metadata,
        }
    }
}

} // verus!
