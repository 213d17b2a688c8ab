//! Identifiers, amounts and references to transaction outputs.

use vstd::prelude::*;

verus! {

/// The number of an account: the 128 bits of its UUID.
pub type AccountId = u128;

/// The number of a wallet: the 128 bits of its UUID.
pub type WalletId = u128;

/// The number of a keychain: the 128 bits of its UUID.
pub type KeychainId = u128;

/// The number of a payout: the 128 bits of its UUID.
pub type PayoutId = u128;

/// The number of a profile: the 128 bits of its UUID.
pub type ProfileId = u128;

/// The number of an address record: the 128 bits of its UUID.
pub type AddressId = u128;

/// The Bitcoin network that keys and addresses belong to.
#[derive(Debug, Clone, Copy, PartialEq, Eq, Structural)]
pub enum Network {
    Bitcoin,
    Testnet,
    Signet,
    Regtest,
}

/// The two address chains of a keychain.
#[derive(Debug, Clone, Copy, PartialEq, Eq, Structural)]
pub enum KeychainKind {
    /// Addresses handed out to receive payments.
    External,
    /// Addresses that the wallet sends its own change to.
    Internal,
}

/// How soon a transaction should confirm.
#[derive(Debug, Clone, Copy, PartialEq, Eq, Structural)]
pub enum TxPriority {
    NextBlock,
    OneHour,
    Economy,
}

/// The id of a transaction: its 32 bytes in storage order, read as two
/// big-endian numbers.
#[derive(Debug, Clone, Copy, PartialEq, Eq, Structural)]
pub struct Txid {
    pub high: u128,
    pub low: u128,
}

/// One output of a transaction.
#[derive(Debug, Clone, Copy, PartialEq, Eq, Structural)]
pub struct OutPoint {
    pub txid: Txid,
    pub vout: u32,
}

/// The largest amount that a [`Satoshis`] holds, either side of zero: a 96-bit
/// number.
pub const MAX_SATOSHIS: i128 = 79228162514264337593543950335;

/// Is `amount` one that a [`Satoshis`] can hold?
pub open spec fn is_amount(amount: int) -> bool {
    -MAX_SATOSHIS <= amount <= MAX_SATOSHIS
}

/// A whole number of satoshis, possibly negative.
#[derive(Debug, Clone, Copy, PartialEq, Eq, Structural)]
pub struct Satoshis {
    amount: i128,
}

impl View for Satoshis {
    type V = int;

    closed spec fn view(&self) -> int {
        self.amount as int
    }
}

impl Satoshis {
    #[verifier::type_invariant]
    pub closed spec fn within_limit(self) -> bool {
        is_amount(self@)
    }

    /// No satoshis.
    pub fn zero() -> (res: Self)
        ensures
            res@ == 0,
    {
        Satoshis { amount: 0 }
    }

    /// The value of a transaction output as an amount.
    pub fn from_output_value(value: u64) -> (res: Self)
        ensures
            res@ == value,
    {
        Satoshis { amount: value as i128 }
    }

    /// The amount as a number.
    pub fn into_inner(self) -> (res: i128)
        ensures
            res == self@,
            is_amount(self@),
    {
        proof {
            use_type_invariant(&self);
        }
        self.amount
    }

    /// The given number of satoshis, if that many can be held.
    pub fn try_new(amount: i128) -> (res: Option<Self>)
        ensures
            res is Some <==> is_amount(amount as int),
            res matches Some(sats) ==> sats@ == amount,
    {
        if -MAX_SATOSHIS <= amount && amount <= MAX_SATOSHIS {
            Some(Satoshis { amount })
        } else {
            None
        }
    }

    /// The sum of two amounts.
    pub fn plus(self, other: Self) -> (res: Self)
        requires
            is_amount(self@ + other@),
        ensures
            res@ == self@ + other@,
    {
        proof {
            use_type_invariant(&self);
            use_type_invariant(&other);
        }
        Satoshis { amount: self.amount + other.amount }
    }

    /// What is left of an amount after taking another away.
    pub fn minus(self, other: Self) -> (res: Self)
        requires
            is_amount(self@ - other@),
        ensures
            res@ == self@ - other@,
    {
        proof {
            use_type_invariant(&self);
            use_type_invariant(&other);
        }
        Satoshis { amount: self.amount - other.amount }
    }

    /// Are the two amounts the same?
    pub fn same(self, other: Self) -> (res: bool)
        ensures
            res == (self@ == other@),
    {
        self.amount == other.amount
    }

    /// Can this amount be the value of a transaction output?
    pub fn is_output_value(self) -> (res: bool)
        ensures
            res == (0 <= self@ <= u64::MAX),
    {
        0 <= self.amount && self.amount <= u64::MAX as i128
    }

    /// The amount as the value of a transaction output.
    pub fn to_output_value(self) -> (res: u64)
        requires
            0 <= self@ <= u64::MAX,
        ensures
            res == self@,
    {
        self.amount as u64
    }
}

} // verus!
