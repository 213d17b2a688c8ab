use std::collections::HashMap;

use bria_wallet::decimal::DecimalParts;
use bria_wallet::finished::{whole_fee, FeeShareError, FinishedPsbtBuild, WalletTotals};
use bria_wallet::primitives::{KeychainKind, Network, Satoshis};
use bria_wallet::script::{Address, AddressInfo, Payload};

fn sats(amount: i128) -> Satoshis {
    Satoshis::try_new(amount).unwrap()
}

fn build(output: i128, fee: i128) -> FinishedPsbtBuild {
    let address = Address::new(Network::Regtest, Payload::PubkeyHash([1; 20])).unwrap();
    let mut wallet_totals = HashMap::new();
    wallet_totals.insert(
        1,
        WalletTotals {
            wallet_id: 1,
            change_keychain_id: 11,
            keychains_with_inputs: vec![],
            input_satoshis: sats(output + fee),
            output_satoshis: sats(output),
            fee_satoshis: sats(fee),
            change_satoshis: Satoshis::zero(),
            change_address: AddressInfo { index: 0, address, keychain: KeychainKind::Internal },
            change_outpoint: None,
        },
    );
    FinishedPsbtBuild {
        included_payouts: HashMap::new(),
        included_utxos: HashMap::new(),
        included_wallet_keychains: HashMap::new(),
        wallet_totals,
        fee_satoshis: sats(fee),
        tx_id: None,
        psbt: None,
    }
}

fn share(output: i128, fee: i128, payout: i128) -> i128 {
    let build = build(output, fee);
    let share = build.proportional_fee(&1, sats(payout)).unwrap().into_inner();
    let checked = build.checked_proportional_fee(&1, sats(payout));
    assert!(matches!(checked, Ok(Some(fee)) if fee.into_inner() == share));
    share
}

#[test]
fn fee_is_shared_by_amount() {
    assert_eq!(share(4000, 300, 1000), 75);
    assert_eq!(share(4000, 300, 2000), 150);
    assert_eq!(share(10_000, 1, 1), 1);
}

#[test]
fn share_of_a_fee_is_rounded_up() {
    assert_eq!(share(3000, 300, 1000), 100);
    assert_eq!(share(4000, 301, 1000), 76);
    assert_eq!(share(7, 10, 3), 5);
}

#[test]
fn rounded_proportion_can_cost_a_satoshi() {
    // Two thirds have no exact decimal; the rounded one is a little too large.
    assert_eq!(share(3000, 300, 2000), 201);
}

#[test]
fn whole_output_bears_the_whole_fee() {
    assert_eq!(share(3000, 300, 3000), 300);
    assert_eq!(share(7, 11, 7), 11);
    assert_eq!(share(7, -11, 7), -11);
    assert_eq!(share(-7, 11, -7), 11);
}

#[test]
fn nothing_bears_no_fee() {
    assert_eq!(share(3000, 300, 0), 0);
    assert_eq!(share(3000, 0, 1000), 0);
}

#[test]
fn negative_share_is_rounded_away_from_zero() {
    assert_eq!(share(4000, -301, 1000), -76);
}

#[test]
fn unknown_wallet_has_no_fee() {
    let build = build(3000, 300);
    assert!(build.proportional_fee(&2, sats(1000)).is_none());
    assert!(matches!(build.checked_proportional_fee(&2, sats(1000)), Ok(None)));
}

#[test]
fn fee_without_output_cannot_be_shared() {
    let res = build(0, 300).checked_proportional_fee(&1, sats(1000));
    assert!(matches!(res, Err(FeeShareError::NoOutput)));
}

#[test]
fn share_that_is_too_large_overflows() {
    let res = build(1, u64::MAX as i128).checked_proportional_fee(&1, sats(u64::MAX as i128));
    assert!(matches!(res, Err(FeeShareError::Overflow)));
}

#[test]
fn fees_become_whole_satoshis() {
    let whole = |mantissa, scale| whole_fee(DecimalParts { mantissa, scale }).into_inner();
    assert_eq!(whole(15, 1), 2);
    assert_eq!(whole(11, 1), 2);
    assert_eq!(whole(10, 1), 1);
    assert_eq!(whole(-11, 1), -2);
    assert_eq!(whole(0, 5), 0);
    assert_eq!(whole(7, 0), 7);
    assert_eq!(whole(1, 28), 1);
}

#[test]
fn outputs_of_no_transaction_are_accounted_for() {
    let build = build(3000, 300);
    assert!(build.outputs_accounted_for());
    let done = build.settle();
    assert!(done.wallet_totals[&1].change_outpoint.is_none());
}

#[test]
fn larger_payouts_bear_no_less() {
    for (output, fee) in [(3000, 300), (7, 10), (1_000_003, 999), (u64::MAX as i128, 12_345)] {
        let mut before = 0;
        for n in 0..=60 {
            let payout = output * n / 30;
            let now = share(output, fee, payout);
            assert!(before <= now, "{output} {fee} {payout}");
            before = now;
        }
    }
}

#[test]
fn shares_cover_the_fee() {
    for (payouts, fee) in [
        (vec![1000, 2000], 300),
        (vec![1, 1, 1], 100),
        (vec![0, 7, 11, 13, 0], 17),
        (vec![333_333_333, 666_666_667], 1),
    ] {
        let output: i128 = payouts.iter().sum();
        let sum: i128 = payouts.iter().map(|payout| share(output, fee, *payout)).sum();
        assert!(sum >= fee);
        for payout in payouts {
            let share = share(output, fee, payout);
            assert!((share + 1) * output > fee * payout);
            assert!((share - 2) * output < fee * payout);
        }
    }
}
