use std::collections::HashMap;

use bdk::FeeRate;
use bitcoin::psbt::PartiallySignedTransaction;
use bitcoin::{PackedLockTime, Transaction};
use bria_wallet::builder::current::{BdkError, CurrentVisit, PayoutTrial, TrialOutcome, WalletBuild};
use bria_wallet::builder::deprecated::{DeprecatedVisit, DrainVisit};
use bria_wallet::builder::{AcceptingCurrentKeychainState, AcceptingWalletState, PsbtBuilder};
use bria_wallet::construction::{Construction, WalletKeychains};
use bria_wallet::finished::FinishedPsbtBuild;
use bria_wallet::primitives::{KeychainKind, Network, OutPoint, Satoshis, Txid};
use bria_wallet::psbt::{BuiltTx, Psbt, PsbtInput, SighashType, TxOrdering, TxOut, TxPayout, TxPlan};
use bria_wallet::script::{Address, AddressInfo, Payload};

fn rate() -> FeeRate {
    FeeRate::from_sat_per_vb(1.0)
}

fn address(n: u8) -> Address {
    let payload = Payload::WitnessProgram { version: 0, program: vec![n; 20] };
    Address::new(Network::Regtest, payload).unwrap()
}

fn script(n: u8) -> Vec<u8> {
    address(n).script_pubkey()
}

fn info(n: u8) -> AddressInfo {
    AddressInfo { index: n as u32, address: address(n), keychain: KeychainKind::Internal }
}

fn payout(id: u128, n: u8, sats: u64) -> TxPayout {
    (id, address(n), Satoshis::from_output_value(sats))
}

fn outpoint(n: u32) -> OutPoint {
    OutPoint { txid: Txid { high: 1, low: n as u128 }, vout: n }
}

fn details(n: u32) -> bitcoin::psbt::Input {
    let mut input = bitcoin::psbt::Input::default();
    input.witness_utxo = Some(bitcoin::TxOut {
        value: n as u64 * 100,
        script_pubkey: bitcoin::Script::new(),
    });
    input
}

fn psbt(inputs: &[u32], outputs: &[(u8, u64)]) -> Psbt {
    let unsigned = PartiallySignedTransaction::from_unsigned_tx(Transaction {
        version: 1,
        lock_time: PackedLockTime::ZERO,
        input: vec![],
        output: vec![],
    })
    .unwrap();
    Psbt {
        inputs: inputs
            .iter()
            .map(|n| PsbtInput { previous_output: outpoint(*n), details: details(*n) })
            .collect(),
        outputs: outputs
            .iter()
            .map(|(n, value)| TxOut { script_pubkey: script(*n), value: *value })
            .collect(),
        unsigned,
    }
}

fn built(inputs: &[u32], outputs: &[(u8, u64)], fee: u64, low: u128) -> BuiltTx {
    BuiltTx { psbt: psbt(inputs, outputs), fee, txid: Txid { high: 2, low } }
}

fn recipients(plan: &TxPlan) -> Vec<(Vec<u8>, u64)> {
    plan.recipients.iter().map(|r| (r.script_pubkey.clone(), r.amount)).collect()
}

fn foreign(plan: &TxPlan) -> Vec<(OutPoint, usize)> {
    plan.foreign_utxos.iter().map(|f| (f.outpoint, f.satisfaction_weight)).collect()
}

fn wallets_builder(consolidate: bool) -> PsbtBuilder<AcceptingWalletState> {
    let mut reserved = HashMap::new();
    reserved.insert(10, vec![outpoint(91)]);
    reserved.insert(11, vec![outpoint(92), outpoint(93)]);
    PsbtBuilder::new()
        .consolidate_deprecated_keychains(consolidate)
        .fee_rate(rate())
        .reserved_utxos(reserved)
        .accept_wallets()
}

fn drain(visit: DeprecatedVisit) -> DrainVisit {
    match visit {
        DeprecatedVisit::Drain(visit) => visit,
        DeprecatedVisit::Skipped(_) => panic!("skipped"),
    }
}

fn trial(visit: CurrentVisit) -> PayoutTrial {
    match visit {
        CurrentVisit::Trial(trial) => trial,
        _ => panic!("no trial"),
    }
}

fn after(trial: PayoutTrial, outcome: TrialOutcome) -> CurrentVisit {
    match trial.trial_finished(outcome) {
        Ok(visit) => visit,
        Err(_) => panic!("failed"),
    }
}

fn build(visit: CurrentVisit) -> WalletBuild {
    match visit {
        CurrentVisit::Build(build) => build,
        _ => panic!("nothing to build"),
    }
}

fn first_wallet_build(consolidate: bool) -> WalletBuild {
    let payouts = vec![payout(1, 1, 1000), payout(2, 2, 2000), payout(3, 3, 5000)];
    let mut builder = wallets_builder(consolidate).wallet_payouts(1, payouts);
    if consolidate {
        builder = drain(builder.visit_bdk_wallet(10))
            .wallet_read(271, &info(50))
            .finished(psbt(&[1, 2], &[(50, 3000)]));
    }
    let visit = builder.accept_current_keychain().visit_bdk_wallet(11, 272, info(51));
    let visit = after(trial(visit), TrialOutcome::Built);
    let visit = after(trial(visit), TrialOutcome::Built);
    build(after(trial(visit), TrialOutcome::InsufficientFunds))
}

fn first_wallet(consolidate: bool) -> PsbtBuilder<AcceptingCurrentKeychainState> {
    first_wallet_build(consolidate).finished(built(
        &[1, 2, 3],
        &[(51, 700), (1, 1000), (2, 2000)],
        300,
        1,
    ))
}

fn both_wallets() -> PsbtBuilder<AcceptingCurrentKeychainState> {
    let visit = first_wallet(true)
        .next_wallet()
        .wallet_payouts(2, vec![payout(4, 4, 4000)])
        .accept_current_keychain()
        .visit_bdk_wallet(21, 273, info(61));
    build(after(trial(visit), TrialOutcome::Built)).finished(built(
        &[1, 2, 3, 4],
        &[(51, 700), (61, 900), (1, 1000), (2, 2000), (4, 4000)],
        500,
        2,
    ))
}

fn vouts(done: &FinishedPsbtBuild, wallet: u128) -> Vec<(u128, u32)> {
    done.included_payouts[&wallet].iter().map(|(payout, vout)| (payout.0, *vout)).collect()
}

#[test]
fn new_build_is_empty() {
    let done = PsbtBuilder::default().accept_wallets().finish();
    assert!(done.included_payouts.is_empty());
    assert!(done.included_utxos.is_empty());
    assert!(done.included_wallet_keychains.is_empty());
    assert!(done.wallet_totals.is_empty());
    assert_eq!(done.fee_satoshis.into_inner(), 0);
    assert!(done.tx_id.is_none());
    assert!(done.psbt.is_none());
}

#[test]
fn deprecated_keychains_are_skipped_unless_asked_for() {
    for builder in [wallets_builder(false), PsbtBuilder::new().accept_wallets()] {
        let visit = builder.wallet_payouts(1, vec![]).visit_bdk_wallet(10);
        assert!(matches!(visit, DeprecatedVisit::Skipped(_)));
    }
}

#[test]
fn drain_plan_empties_the_keychain() {
    let visit = drain(wallets_builder(true).wallet_payouts(1, vec![]).visit_bdk_wallet(10));
    assert_eq!(visit.keychain_id, 10);
    let drain = visit.wallet_read(271, &info(50));
    assert_eq!(drain.keychain_id, 10);
    assert_eq!(drain.satisfaction_weight, 271);
    assert_eq!(drain.plan.fee_rate.as_sat_per_vb(), 1.0);
    assert_eq!(drain.plan.unspendable, vec![outpoint(91)]);
    assert!(drain.plan.recipients.is_empty());
    assert!(drain.plan.foreign_utxos.is_empty());
    assert!(drain.plan.drain_wallet);
    assert_eq!(drain.plan.drain_to, Some(script(50)));
    assert_eq!(drain.plan.sighash, Some(SighashType::All));
    assert_eq!(drain.plan.ordering, TxOrdering::Default);
}

#[test]
fn trial_plan_asks_for_one_more_payout() {
    let payouts = vec![payout(1, 1, 1000), payout(2, 2, 2000)];
    let builder = drain(wallets_builder(true).wallet_payouts(1, payouts).visit_bdk_wallet(10))
        .wallet_read(271, &info(50))
        .finished(psbt(&[1, 2], &[(50, 3000)]))
        .accept_current_keychain();
    let trial = trial(builder.visit_bdk_wallet(11, 272, info(51)));
    assert_eq!(trial.keychain_id, 11);
    assert_eq!(trial.max_payout, 0);
    assert_eq!(recipients(&trial.plan), vec![(script(1), 1000)]);
    assert_eq!(foreign(&trial.plan), vec![(outpoint(1), 271), (outpoint(2), 271)]);
    assert!(trial.plan.foreign_utxos[0].details == details(1));
    assert!(trial.plan.foreign_utxos[1].details == details(2));
    assert_eq!(trial.plan.unspendable, vec![outpoint(92), outpoint(93)]);
    assert!(!trial.plan.drain_wallet);
    assert!(trial.plan.drain_to.is_none());
    assert!(trial.plan.sighash.is_none());
    assert_eq!(trial.plan.ordering, TxOrdering::Default);

    let CurrentVisit::Trial(next) = after(trial, TrialOutcome::Built) else {
        panic!("no trial");
    };
    assert_eq!(next.max_payout, 1);
    assert_eq!(recipients(&next.plan), vec![(script(1), 1000), (script(2), 2000)]);
    assert_eq!(foreign(&next.plan), vec![(outpoint(1), 271), (outpoint(2), 271)]);
}

#[test]
fn build_plan_has_the_chosen_payouts() {
    let build = first_wallet_build(true);
    assert_eq!(recipients(&build.plan), vec![(script(1), 1000), (script(2), 2000)]);
    assert_eq!(foreign(&build.plan), vec![(outpoint(1), 271), (outpoint(2), 271)]);
    assert_eq!(build.plan.unspendable, vec![outpoint(92), outpoint(93)]);
    assert!(!build.plan.drain_wallet);
    assert_eq!(build.plan.drain_to, Some(script(51)));
    assert_eq!(build.plan.sighash, Some(SighashType::All));
    assert_eq!(build.plan.ordering, TxOrdering::Bip69Lexicographic);
    assert_eq!(build.output_satoshis.into_inner(), 3000);
}

#[test]
fn all_payouts_are_built_when_all_trials_succeed() {
    let visit = wallets_builder(false)
        .wallet_payouts(1, vec![payout(1, 1, 1000), payout(2, 2, 2000)])
        .accept_current_keychain()
        .visit_bdk_wallet(11, 272, info(51));
    let visit = after(trial(visit), TrialOutcome::Built);
    let build = build(after(trial(visit), TrialOutcome::Built));
    assert_eq!(recipients(&build.plan).len(), 2);
    assert_eq!(build.output_satoshis.into_inner(), 3000);
}

#[test]
fn build_plan_repeats_what_was_built() {
    let visit = first_wallet(true)
        .next_wallet()
        .wallet_payouts(2, vec![payout(4, 4, 4000)])
        .accept_current_keychain()
        .visit_bdk_wallet(21, 273, info(61));
    let trial = trial(visit);
    assert_eq!(recipients(&trial.plan), vec![(script(4), 4000)]);
    assert!(trial.plan.foreign_utxos.is_empty());
    assert!(trial.plan.unspendable.is_empty());
    let build = build(after(trial, TrialOutcome::Built));
    assert_eq!(
        recipients(&build.plan),
        vec![(script(4), 4000), (script(51), 700), (script(1), 1000), (script(2), 2000)]
    );
    assert_eq!(
        foreign(&build.plan),
        vec![(outpoint(1), 272), (outpoint(2), 272), (outpoint(3), 272)]
    );
    assert!(build.plan.foreign_utxos[2].details == details(3));
    assert_eq!(build.plan.drain_to, Some(script(61)));
}

#[test]
fn wallet_that_can_pay_nothing_is_passed_over() {
    let visit = first_wallet(true)
        .next_wallet()
        .wallet_payouts(2, vec![payout(4, 4, 4000)])
        .accept_current_keychain()
        .visit_bdk_wallet(21, 273, info(61));
    let CurrentVisit::Unfunded(builder) = after(trial(visit), TrialOutcome::InsufficientFunds)
    else {
        panic!("funded");
    };
    assert!(builder.outputs_accounted_for());
    let done = builder.next_wallet().finish();
    assert_eq!(done.wallet_totals.len(), 1);
    assert!(!done.included_payouts.contains_key(&2));
    assert_eq!(done.fee_satoshis.into_inner(), 300);
}

#[test]
fn wallet_without_payouts_is_passed_over() {
    let visit = wallets_builder(false)
        .wallet_payouts(1, vec![])
        .accept_current_keychain()
        .visit_bdk_wallet(11, 272, info(51));
    let CurrentVisit::Unfunded(builder) = visit else {
        panic!("funded");
    };
    assert!(builder.has_no_open_psbts());
    assert!(builder.finish().psbt.is_none());
}

#[test]
fn unused_drain_stays_open() {
    let builder = drain(wallets_builder(true).wallet_payouts(1, vec![]).visit_bdk_wallet(10))
        .wallet_read(271, &info(50))
        .finished(psbt(&[1, 2], &[(50, 3000)]));
    let visit = builder.accept_current_keychain().visit_bdk_wallet(11, 272, info(51));
    let CurrentVisit::Unfunded(builder) = visit else {
        panic!("funded");
    };
    assert!(!builder.has_no_open_psbts());
}

#[test]
fn failed_trial_is_an_error() {
    let visit = wallets_builder(false)
        .wallet_payouts(1, vec![payout(1, 1, 1000)])
        .accept_current_keychain()
        .visit_bdk_wallet(11, 272, info(51));
    let res = trial(visit).trial_finished(TrialOutcome::Failed(bdk::Error::NoRecipients));
    assert!(matches!(res, Err(BdkError::BdkLibError(bdk::Error::NoRecipients))));
}

#[test]
fn finished_build_of_one_wallet() {
    let builder = first_wallet(true);
    assert!(builder.has_no_open_psbts());
    assert!(builder.outputs_accounted_for());
    let done = builder.finish();
    assert_eq!(vouts(&done, 1), vec![(1, 1), (2, 2)]);
    assert_eq!(done.included_utxos[&1][&10], vec![outpoint(1), outpoint(2)]);
    assert_eq!(done.included_utxos[&1][&11], vec![outpoint(3)]);
    assert_eq!(done.included_wallet_keychains[&10], 1);
    assert_eq!(done.included_wallet_keychains[&11], 1);
    assert_eq!(done.fee_satoshis.into_inner(), 300);
    assert_eq!(done.tx_id, Some(Txid { high: 2, low: 1 }));
    assert_eq!(done.psbt.unwrap().outputs.len(), 3);

    let total = &done.wallet_totals[&1];
    assert_eq!(total.wallet_id, 1);
    assert_eq!(total.change_keychain_id, 11);
    assert_eq!(total.output_satoshis.into_inner(), 3000);
    assert_eq!(total.fee_satoshis.into_inner(), 300);
    assert_eq!(total.change_satoshis.into_inner(), 700);
    assert_eq!(total.input_satoshis.into_inner(), 4000);
    assert_eq!(total.change_address.index, 51);
    assert_eq!(
        total.change_outpoint,
        Some(OutPoint { txid: Txid { high: 2, low: 1 }, vout: 0 })
    );
    let mut signers = total.keychains_with_inputs.clone();
    signers.sort();
    assert_eq!(signers, vec![10, 11]);
}

#[test]
fn finished_build_of_two_wallets() {
    let done = both_wallets().next_wallet().finish();
    assert_eq!(vouts(&done, 1), vec![(1, 2), (2, 3)]);
    assert_eq!(vouts(&done, 2), vec![(4, 4)]);
    assert_eq!(done.included_utxos[&1][&11], vec![outpoint(3)]);
    assert_eq!(done.included_utxos[&2][&21], vec![outpoint(4)]);
    assert_eq!(done.included_wallet_keychains[&21], 2);
    assert_eq!(done.fee_satoshis.into_inner(), 500);

    let txid = Txid { high: 2, low: 2 };
    assert_eq!(done.tx_id, Some(txid));
    assert_eq!(done.wallet_totals[&1].fee_satoshis.into_inner(), 300);
    assert_eq!(done.wallet_totals[&1].change_outpoint, Some(OutPoint { txid, vout: 0 }));
    assert_eq!(done.wallet_totals[&2].output_satoshis.into_inner(), 4000);
    assert_eq!(done.wallet_totals[&2].fee_satoshis.into_inner(), 200);
    assert_eq!(done.wallet_totals[&2].change_satoshis.into_inner(), 900);
    assert_eq!(done.wallet_totals[&2].input_satoshis.into_inner(), 5100);
    assert_eq!(done.wallet_totals[&2].change_outpoint, Some(OutPoint { txid, vout: 1 }));
    assert_eq!(done.wallet_totals[&2].keychains_with_inputs, vec![21]);
}

#[test]
fn fees_of_the_wallets_add_up() {
    let done = both_wallets().finish();
    let sum: i128 = done.wallet_totals.values().map(|t| t.fee_satoshis.into_inner()).sum();
    assert_eq!(sum, done.fee_satoshis.into_inner());
}

#[test]
fn wallet_without_change_has_no_change_output() {
    let builder = first_wallet_build(false).finished(built(
        &[3],
        &[(1, 1000), (2, 2000)],
        300,
        1,
    ));
    let done = builder.finish();
    assert_eq!(done.wallet_totals[&1].change_satoshis.into_inner(), 0);
    assert!(done.wallet_totals[&1].change_outpoint.is_none());
    assert_eq!(vouts(&done, 1), vec![(1, 0), (2, 1)]);
}

#[test]
fn fee_of_a_wallet_can_be_negative() {
    let visit = first_wallet(false)
        .next_wallet()
        .wallet_payouts(2, vec![payout(4, 4, 4000)])
        .accept_current_keychain()
        .visit_bdk_wallet(21, 273, info(61));
    let builder = build(after(trial(visit), TrialOutcome::Built)).finished(built(
        &[1, 2, 3, 4],
        &[(51, 700), (1, 1000), (2, 2000), (4, 4000)],
        250,
        2,
    ));
    let done = builder.finish();
    assert_eq!(done.wallet_totals[&2].fee_satoshis.into_inner(), -50);
    assert_eq!(done.wallet_totals[&2].input_satoshis.into_inner(), 3950);
    assert_eq!(done.fee_satoshis.into_inner(), 250);
}

#[test]
fn equal_payouts_get_outputs_of_their_own() {
    let visit = wallets_builder(false)
        .wallet_payouts(1, vec![payout(1, 1, 1000), payout(2, 1, 1000)])
        .accept_current_keychain()
        .visit_bdk_wallet(11, 272, info(51));
    let visit = after(trial(visit), TrialOutcome::Built);
    let builder = build(after(trial(visit), TrialOutcome::Built)).finished(built(
        &[3],
        &[(1, 1000), (51, 10), (1, 1000)],
        300,
        1,
    ));
    assert_eq!(vouts(&builder.finish(), 1), vec![(1, 0), (2, 2)]);
}

#[test]
fn payout_to_the_change_address_keeps_off_the_change() {
    let visit = wallets_builder(false)
        .wallet_payouts(1, vec![payout(1, 51, 700)])
        .accept_current_keychain()
        .visit_bdk_wallet(11, 272, info(51));
    let builder = build(after(trial(visit), TrialOutcome::Built)).finished(built(
        &[3],
        &[(51, 700), (51, 700)],
        300,
        1,
    ));
    let done = builder.finish();
    assert_eq!(done.wallet_totals[&1].change_outpoint.unwrap().vout, 0);
    assert_eq!(vouts(&done, 1), vec![(1, 1)]);
}

#[test]
fn missing_outputs_are_noticed() {
    let no_payout = first_wallet_build(false).finished(built(
        &[3],
        &[(51, 700), (1, 1000), (2, 1999)],
        300,
        1,
    ));
    assert!(!no_payout.outputs_accounted_for());

    let taken_by_change = first_wallet(true).next_wallet();
    let visit = taken_by_change
        .wallet_payouts(2, vec![payout(4, 61, 900)])
        .accept_current_keychain()
        .visit_bdk_wallet(21, 273, info(61));
    let builder = build(after(trial(visit), TrialOutcome::Built)).finished(built(
        &[1, 2, 3, 4],
        &[(51, 700), (61, 900), (1, 1000), (2, 2000)],
        500,
        2,
    ));
    assert!(!builder.outputs_accounted_for());
}

#[test]
fn missing_change_is_noticed() {
    let visit = first_wallet(true)
        .next_wallet()
        .wallet_payouts(2, vec![payout(4, 4, 4000)])
        .accept_current_keychain()
        .visit_bdk_wallet(21, 273, info(61));
    let builder = build(after(trial(visit), TrialOutcome::Built)).finished(built(
        &[1, 2, 3, 4],
        &[(51, 701), (1, 1000), (2, 2000), (4, 4000)],
        500,
        2,
    ));
    assert!(!builder.outputs_accounted_for());
}

#[test]
fn inputs_are_listed_once() {
    let done = both_wallets().finish();
    let mut all: Vec<OutPoint> = vec![];
    for of_wallet in done.included_utxos.values() {
        for list in of_wallet.values() {
            all.extend(list.iter().copied());
        }
    }
    all.sort_by_key(|out| out.vout);
    assert_eq!(all, vec![outpoint(1), outpoint(2), outpoint(3), outpoint(4)]);
}

fn keychains(id: u128, deprecated: &[u128], current: u128) -> WalletKeychains {
    WalletKeychains { id, deprecated: deprecated.to_vec(), current }
}

#[test]
fn construction_without_payouts_is_complete() {
    let mut wallets = HashMap::new();
    wallets.insert(1, keychains(1, &[10], 11));
    let construction =
        PsbtBuilder::construct_psbt(true, rate(), HashMap::new(), HashMap::new(), wallets);
    let Construction::AllVisited(builder) = construction else {
        panic!("something to visit");
    };
    assert!(builder.finish().psbt.is_none());
}

#[test]
fn construction_visits_the_keychains_in_order() {
    let mut wallets = HashMap::new();
    wallets.insert(1, keychains(1, &[10, 12], 11));
    let mut payouts = HashMap::new();
    payouts.insert(1, vec![payout(1, 1, 1000)]);
    let construction = PsbtBuilder::construct_psbt(false, rate(), HashMap::new(), payouts, wallets);
    let Construction::VisitDeprecated(turn) = construction else {
        panic!("no deprecated keychain");
    };
    assert_eq!(turn.keychain_id, 10);
    let Construction::VisitDeprecated(turn) = turn.agenda.deprecated_visited(turn.builder) else {
        panic!("no deprecated keychain");
    };
    assert_eq!(turn.keychain_id, 12);
    let Construction::VisitCurrent(turn) = turn.agenda.deprecated_visited(turn.builder) else {
        panic!("no current keychain");
    };
    assert_eq!(turn.keychain_id, 11);
    assert!(turn.agenda.is_last_wallet());
    let visit = turn.builder.visit_bdk_wallet(11, 272, info(51));
    let builder = build(after(trial(visit), TrialOutcome::Built)).finished(built(
        &[3],
        &[(51, 700), (1, 1000)],
        300,
        1,
    ));
    let Construction::AllVisited(builder) = turn.agenda.current_visited(builder) else {
        panic!("something to visit");
    };
    assert_eq!(vouts(&builder.finish(), 1), vec![(1, 1)]);
}

#[test]
fn construction_gives_every_wallet_its_turn() {
    let mut wallets = HashMap::new();
    let mut payouts = HashMap::new();
    for n in 1..=3u128 {
        wallets.insert(n, keychains(n, &[], n * 10));
        payouts.insert(n, vec![payout(n, n as u8, n as u64 * 1000)]);
    }
    wallets.insert(4, keychains(4, &[], 40));
    let mut construction =
        PsbtBuilder::construct_psbt(false, rate(), HashMap::new(), payouts, wallets);
    let mut visited = vec![];
    let mut last = vec![];
    loop {
        match construction {
            Construction::VisitDeprecated(_) => panic!("no deprecated keychains"),
            Construction::VisitCurrent(turn) => {
                visited.push(turn.keychain_id);
                last.push(turn.agenda.is_last_wallet());
                let visit = turn.builder.visit_bdk_wallet(turn.keychain_id, 272, info(51));
                let trial = trial(visit);
                let wallet = (turn.keychain_id / 10) as u8;
                assert_eq!(recipients(&trial.plan), vec![(script(wallet), wallet as u64 * 1000)]);
                let CurrentVisit::Unfunded(builder) = after(trial, TrialOutcome::InsufficientFunds)
                else {
                    panic!("funded");
                };
                construction = turn.agenda.current_visited(builder);
            }
            Construction::AllVisited(builder) => {
                assert!(builder.finish().wallet_totals.is_empty());
                break;
            }
        }
    }
    visited.sort();
    assert_eq!(visited, vec![10, 20, 30]);
    assert_eq!(last, vec![false, false, true]);
}

#[test]
fn requirements_of_a_visit_can_be_tested() {
    let huge = Satoshis::try_new(u64::MAX as i128 + 1).unwrap();
    let payouts = vec![payout(1, 1, 1000), (2, address(2), huge)];
    assert!(!PsbtBuilder::new().has_fee_rate());
    let builder = wallets_builder(false).wallet_payouts(1, payouts).accept_current_keychain();
    assert!(builder.has_fee_rate());
    assert!(builder.has_payouts());
    assert!(builder.payout_is_payable(0));
    assert!(!builder.payout_is_payable(1));
    assert!(builder.payout_is_payable(2));
    assert!(builder.payouts_sum_up(1));
    let build = first_wallet_build(true);
    assert!(build.totals_fit(&built(&[1], &[(51, u64::MAX)], u64::MAX, 1)));
}

#[test]
fn leftover_payouts_do_not_matter() {
    let now = first_wallet(true).finish();
    let later = first_wallet(true).next_wallet().finish();
    assert_eq!(vouts(&now, 1), vouts(&later, 1));
    assert_eq!(now.included_utxos, later.included_utxos);
    assert_eq!(now.included_wallet_keychains, later.included_wallet_keychains);
    assert_eq!(now.fee_satoshis, later.fee_satoshis);
    assert_eq!(now.tx_id, later.tx_id);
    assert_eq!(
        now.wallet_totals[&1].change_outpoint,
        later.wallet_totals[&1].change_outpoint
    );
}

#[test]
fn reserved_outputs_are_never_listed() {
    let done = both_wallets().finish();
    let reserved = [outpoint(91), outpoint(92), outpoint(93)];
    for of_wallet in done.included_utxos.values() {
        for list in of_wallet.values() {
            assert!(list.iter().all(|out| !reserved.contains(out)));
        }
    }
}
