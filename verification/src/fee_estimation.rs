//! Choosing among recommended fee rates.

use vstd::prelude::*;

use crate::primitives::TxPriority;

verus! {

/// The fee rates that mempool.space recommends, in satoshis per virtual byte.
#[derive(Debug, Clone, Copy)]
pub struct RecommendedFeesResponse {
    pub fastest_fee: u64,
    pub half_hour_fee: u64,
    pub hour_fee: u64,
    pub economy_fee: u64,
    pub minimum_fee: u64,
}

/// A client of mempool.space.
pub struct MempoolSpaceClient {}

impl MempoolSpaceClient {
    /// The recommended fee rate for a transaction of the given priority.
    pub fn fee_rate(priority: TxPriority, fees: &RecommendedFeesResponse) -> (res: u64)
        ensures
            res == match priority {
                TxPriority::Economy => fees.economy_fee,
                TxPriority::OneHour => fees.hour_fee,
                TxPriority::NextBlock => fees.fastest_fee,
            },
    {
        match priority {
            TxPriority::Economy => fees.economy_fee,
            TxPriority::OneHour => fees.hour_fee,
            TxPriority::NextBlock => fees.fastest_fee,
        }
    }
}

} // verus!
