//! What the steps of a build hand back, field by field.

use std::collections::HashMap;

use bdk::FeeRate;
use vstd::prelude::*;

use super::finishing::{law_finished_change, law_finished_payouts, law_finishing_keeps_the_rest};
use super::plans::law_builds_make_the_chosen_payouts;
use super::plans::{law_payouts_sum_up, law_trials_ask_for_the_payouts};
use super::plans::law_trials_spend_exactly_what_was_drained;
use super::states::law_change_is_the_first_output_to_the_script;
use crate::builder::current::{BdkError, CurrentVisit, PayoutTrial, TrialOutcome, WalletBuild};
use crate::builder::deprecated::{DeprecatedVisit, DrainBuild, DrainVisit};
use crate::builder::{AcceptingCurrentKeychainState, AcceptingDeprecatedKeychainState};
use crate::builder::{AcceptingWalletState, InitialPsbtBuilderState, PsbtBuilder};
use crate::builder_model::is_payable;
use crate::finished::FinishedPsbtBuild;
use crate::primitives::{KeychainId, OutPoint, WalletId};
use crate::psbt::{BuiltTx, Psbt, SighashType, TxOrdering, TxPayout, TxPlan};
use crate::script::AddressInfo;

verus! {

/// A new builder has nothing configured and nothing built.
pub proof fn law_new_builders_are_empty(builder: PsbtBuilder<InitialPsbtBuilderState>)
    requires
        call_ensures(PsbtBuilder::<InitialPsbtBuilderState>::new, (), builder),
    ensures
        builder@.consolidate_deprecated_keychains is None,
        builder@.fee_rate is None,
        builder@.reserved_utxos is None,
        builder@.current_wallet is None,
        builder@.current_payouts.len() == 0,
        builder@.current_wallet_psbts.len() == 0,
        builder@.result.included_payouts.dom() == Set::<WalletId>::empty(),
        builder@.result.included_utxos.dom() == Set::<WalletId>::empty(),
        builder@.result.included_wallet_keychains.dom() == Set::<KeychainId>::empty(),
        builder@.result.wallet_totals.dom() == Set::<WalletId>::empty(),
        builder@.result.fee_satoshis == 0,
        builder@.result.tx_id is None,
        builder@.result.psbt is None,
        builder@.input_weights.dom() == Set::<OutPoint>::empty(),
        builder@.all_included_utxos == Set::<OutPoint>::empty(),
{
    assert(builder@.result.included_payouts.dom() =~= Set::<WalletId>::empty());
    assert(builder@.result.included_utxos.dom() =~= Set::<WalletId>::empty());
    assert(builder@.result.included_wallet_keychains.dom() =~= Set::<KeychainId>::empty());
    assert(builder@.result.wallet_totals.dom() =~= Set::<WalletId>::empty());
    assert(builder@.input_weights.dom() =~= Set::<OutPoint>::empty());
}

/// Configuring a builder sets what it is about and nothing else.
pub proof fn law_settings_set_one_thing(
    before: PsbtBuilder<InitialPsbtBuilderState>,
    consolidate: bool,
    rate: FeeRate,
    reserved: HashMap<KeychainId, Vec<OutPoint>>,
    consolidating: PsbtBuilder<InitialPsbtBuilderState>,
    rated: PsbtBuilder<InitialPsbtBuilderState>,
    reserving: PsbtBuilder<InitialPsbtBuilderState>,
)
    requires
        call_ensures(
            PsbtBuilder::<InitialPsbtBuilderState>::consolidate_deprecated_keychains,
            (before, consolidate),
            consolidating,
        ),
        call_ensures(PsbtBuilder::<InitialPsbtBuilderState>::fee_rate, (before, rate), rated),
        call_ensures(
            PsbtBuilder::<InitialPsbtBuilderState>::reserved_utxos,
            (before, reserved),
            reserving,
        ),
    ensures
        consolidating@.consolidate_deprecated_keychains == Some(consolidate),
        consolidating@.fee_rate == before@.fee_rate,
        consolidating@.reserved_utxos == before@.reserved_utxos,
        consolidating@.current_wallet_psbts == before@.current_wallet_psbts,
        consolidating@.result == before@.result,
        consolidating@.input_weights == before@.input_weights,
        consolidating@.all_included_utxos == before@.all_included_utxos,
        rated@.consolidate_deprecated_keychains == before@.consolidate_deprecated_keychains,
        rated@.fee_rate == Some(rate),
        rated@.reserved_utxos == before@.reserved_utxos,
        rated@.current_wallet_psbts == before@.current_wallet_psbts,
        rated@.result == before@.result,
        rated@.input_weights == before@.input_weights,
        rated@.all_included_utxos == before@.all_included_utxos,
        reserving@.consolidate_deprecated_keychains == before@.consolidate_deprecated_keychains,
        reserving@.fee_rate == before@.fee_rate,
        reserving@.current_wallet_psbts == before@.current_wallet_psbts,
        reserving@.result == before@.result,
        reserving@.input_weights == before@.input_weights,
        reserving@.all_included_utxos == before@.all_included_utxos,
        reserving@.reserved_utxos is Some,
        forall|keychain: KeychainId| #[trigger]
            reserving@.reserved_utxos->0.contains_key(keychain) <==> reserved@.contains_key(
                keychain,
            ),
        forall|keychain: KeychainId| #[trigger]
            reserving@.reserved_utxos->0.contains_key(keychain)
                ==> reserving@.reserved_utxos->0[keychain] == reserved@[keychain]@,
{
}

/// The turn of a wallet starts with all of its payouts and ends with none, and all that
/// was configured and built stays.
pub proof fn law_turns_start_and_end(
    configured: PsbtBuilder<InitialPsbtBuilderState>,
    waiting: PsbtBuilder<AcceptingWalletState>,
    wallet: WalletId,
    payouts: Vec<TxPayout>,
    turn: PsbtBuilder<AcceptingDeprecatedKeychainState>,
    current: PsbtBuilder<AcceptingCurrentKeychainState>,
    visited: PsbtBuilder<AcceptingCurrentKeychainState>,
    next: PsbtBuilder<AcceptingWalletState>,
)
    requires
        call_ensures(
            PsbtBuilder::<InitialPsbtBuilderState>::accept_wallets,
            (configured,),
            waiting,
        ),
        call_ensures(
            PsbtBuilder::<AcceptingWalletState>::wallet_payouts,
            (waiting, wallet, payouts),
            turn,
        ),
        call_ensures(
            PsbtBuilder::<AcceptingDeprecatedKeychainState>::accept_current_keychain,
            (turn,),
            current,
        ),
        call_ensures(
            PsbtBuilder::<AcceptingCurrentKeychainState>::next_wallet,
            (visited,),
            next,
        ),
    ensures
        waiting@.current_wallet is None,
        waiting@.current_payouts.len() == 0,
        waiting@.consolidate_deprecated_keychains == configured@.consolidate_deprecated_keychains,
        waiting@.fee_rate == configured@.fee_rate,
        waiting@.reserved_utxos == configured@.reserved_utxos,
        waiting@.current_wallet_psbts == configured@.current_wallet_psbts,
        waiting@.result == configured@.result,
        waiting@.input_weights == configured@.input_weights,
        waiting@.all_included_utxos == configured@.all_included_utxos,
        turn@.current_wallet == Some(wallet),
        turn@.current_payouts == payouts@,
        turn@.consolidate_deprecated_keychains == waiting@.consolidate_deprecated_keychains,
        turn@.fee_rate == waiting@.fee_rate,
        turn@.reserved_utxos == waiting@.reserved_utxos,
        turn@.current_wallet_psbts == waiting@.current_wallet_psbts,
        turn@.result == waiting@.result,
        turn@.input_weights == waiting@.input_weights,
        turn@.all_included_utxos == waiting@.all_included_utxos,
        current@ == turn@,
        next@.current_wallet is None,
        next@.current_payouts.len() == 0,
        next@.consolidate_deprecated_keychains == visited@.consolidate_deprecated_keychains,
        next@.fee_rate == visited@.fee_rate,
        next@.reserved_utxos == visited@.reserved_utxos,
        next@.current_wallet_psbts == visited@.current_wallet_psbts,
        next@.result == visited@.result,
        next@.input_weights == visited@.input_weights,
        next@.all_included_utxos == visited@.all_included_utxos,
{
}

/// The visit of a deprecated keychain drains it exactly if the builder was told to empty
/// such keychains, whatever it has built so far, and changes nothing yet.
pub proof fn law_deprecated_visits_drain_if_told(
    builder: PsbtBuilder<AcceptingDeprecatedKeychainState>,
    keychain: KeychainId,
    visit: DeprecatedVisit,
)
    requires
        call_ensures(
            PsbtBuilder::<AcceptingDeprecatedKeychainState>::visit_bdk_wallet,
            (builder, keychain),
            visit,
        ),
    ensures
        visit is Drain <==> builder@.consolidate_deprecated_keychains == Some(true),
        visit matches DeprecatedVisit::Drain(drain) ==> drain.builder@ == builder@
            && drain.keychain_id == keychain,
        visit matches DeprecatedVisit::Skipped(same) ==> same@ == builder@,
{
}

/// The plan of a drain empties the whole keychain but for what is reserved, into one
/// output to the given address, at the fee rate of the builder.
pub proof fn law_drains_empty_the_keychain(
    visit: DrainVisit,
    satisfaction_weight: usize,
    drain_address: AddressInfo,
    drain: DrainBuild,
)
    requires
        visit.builder@.fee_rate is Some,
        call_ensures(
            DrainVisit::wallet_read,
            (visit, satisfaction_weight, &drain_address),
            drain,
        ),
    ensures
        drain.builder@ == visit.builder@,
        drain.keychain_id == visit.keychain_id,
        drain.satisfaction_weight == satisfaction_weight,
        drain.plan@ == visit.builder@.drain_plan(
            visit.keychain_id,
            drain_address.address.script(),
        ),
        drain.plan.drain_wallet,
        drain.plan.drain_to is Some,
        drain.plan.drain_to->0@ == drain_address.address.script(),
        Some(drain.plan.fee_rate) == visit.builder@.fee_rate,
        drain.plan.recipients@.len() == 0,
        drain.plan.foreign_utxos@.len() == 0,
        drain.plan.sighash == Some(SighashType::All),
        drain.plan.ordering == TxOrdering::Default,
        forall|reserved: Map<KeychainId, Seq<OutPoint>>|
            visit.builder@.reserved_utxos == Some(reserved) && #[trigger] reserved.contains_key(
                visit.keychain_id,
            ) ==> drain.plan.unspendable@ == reserved[visit.keychain_id],
        visit.builder@.reserved_utxos is None ==> drain.plan.unspendable@.len() == 0,
        forall|reserved: Map<KeychainId, Seq<OutPoint>>|
            visit.builder@.reserved_utxos == Some(reserved) && !#[trigger] reserved.contains_key(
                visit.keychain_id,
            ) ==> drain.plan.unspendable@.len() == 0,
{
    let plan = drain.plan@;
    assert(plan.recipients.len() == drain.plan.recipients@.len());
    assert(plan.drain_to == Some(drain_address.address.script()));
}

/// A drain that was built is open, behind those before it, and each of its inputs has the
/// weight of the keychain. Nothing of what was built changes.
pub proof fn law_drains_are_open_when_finished(
    drain: DrainBuild,
    psbt: Psbt,
    now: PsbtBuilder<AcceptingDeprecatedKeychainState>,
)
    requires
        call_ensures(DrainBuild::finished, (drain, psbt), now),
    ensures
        now@ == drain.builder@.drained(drain.keychain_id, drain.satisfaction_weight, psbt),
        now@.current_wallet_psbts == drain.builder@.current_wallet_psbts.push(
            (drain.keychain_id, psbt),
        ),
        now@.result == drain.builder@.result,
        now@.all_included_utxos == drain.builder@.all_included_utxos,
        now@.current_wallet == drain.builder@.current_wallet,
        now@.current_payouts == drain.builder@.current_payouts,
        now@.consolidate_deprecated_keychains == drain.builder@.consolidate_deprecated_keychains,
        now@.fee_rate == drain.builder@.fee_rate,
        now@.reserved_utxos == drain.builder@.reserved_utxos,
        forall|i: int|
            0 <= i < psbt.inputs@.len() ==> {
                let outpoint = (#[trigger] psbt.inputs@[i]).previous_output;
                now@.input_weights.contains_key(outpoint) && now@.input_weights[outpoint]
                    == drain.satisfaction_weight
            },
{
    super::states::law_drains_open_one_transaction(
        drain.builder@,
        drain.keychain_id,
        drain.satisfaction_weight,
        psbt,
    );
}

/// A trial pays the first `n` payouts, spends what was drained, leaves alone what is
/// reserved, and never empties the wallet, whatever was built before.
pub proof fn law_trials_pay_the_first_payouts(
    builder: PsbtBuilder<AcceptingCurrentKeychainState>,
    keychain: KeychainId,
    n: usize,
    plan: TxPlan,
    outpoint: OutPoint,
)
    requires
        builder@.fee_rate is Some,
        n <= builder@.current_payouts.len(),
        forall|i: int|
            0 <= i < n ==> 0 <= (#[trigger] builder@.current_payouts[i]).2@ <= u64::MAX,
        call_ensures(
            PsbtBuilder::<AcceptingCurrentKeychainState>::try_build_current_wallet_psbt,
            (&builder, keychain, n),
            plan,
        ),
    ensures
        plan@ == builder@.trial_plan(keychain, n as int),
        !plan.drain_wallet,
        plan.drain_to is None,
        Some(plan.fee_rate) == builder@.fee_rate,
        plan.sighash is None,
        plan.ordering == TxOrdering::Default,
        plan.recipients@.len() == n,
        forall|i: int|
            0 <= i < n ==> {
                &&& (#[trigger] plan.recipients@[i]).script_pubkey@
                    == builder@.current_payouts[i].1.script()
                &&& plan.recipients@[i].amount == builder@.current_payouts[i].2@
            },
        (exists|i: int|
            0 <= i < plan.foreign_utxos@.len() && (#[trigger] plan.foreign_utxos@[i]).outpoint
                == outpoint) <==> (exists|a: int, b: int|
            0 <= a < builder@.current_wallet_psbts.len() && 0 <= b
                < builder@.current_wallet_psbts[a].1.inputs@.len()
                && (#[trigger] builder@.current_wallet_psbts[a].1.inputs@[b]).previous_output
                == outpoint),
{
    law_trials_ask_for_the_payouts(builder@, keychain, n as int);
    law_trials_spend_exactly_what_was_drained(builder@, keychain, n as int, outpoint);
    let planned = builder@.trial_plan(keychain, n as int);
    assert(plan@ == planned);
    let foreign = plan.foreign_utxos@;
    assert(foreign == planned.foreign_utxos);
    if exists|i: int| 0 <= i < foreign.len() && (#[trigger] foreign[i]).outpoint == outpoint {
        let i = choose|i: int|
            0 <= i < foreign.len() && (#[trigger] foreign[i]).outpoint == outpoint;
        assert(builder@.trial_plan(keychain, n as int).foreign_utxos[i].outpoint == outpoint);
    }
    if exists|i: int|
        0 <= i < planned.foreign_utxos.len() && (#[trigger] planned.foreign_utxos[i]).outpoint
            == outpoint {
        let i = choose|i: int|
            0 <= i < planned.foreign_utxos.len() && (
            #[trigger] planned.foreign_utxos[i]).outpoint == outpoint;
        assert(plan.foreign_utxos@[i].outpoint == outpoint);
    }
    assert(plan@.recipients.len() == plan.recipients@.len());
    assert forall|i: int| 0 <= i < n implies {
        &&& (#[trigger] plan.recipients@[i]).script_pubkey@ == builder@.current_payouts[i].1.script()
        &&& plan.recipients@[i].amount == builder@.current_payouts[i].2@
    } by {
        assert(plan@.recipients[i] == plan.recipients@[i]@);
        assert(planned.recipients[i].0 == builder@.current_payouts[i].1.script());
    }
}

/// The visit of a current keychain asks whether its wallet can pay its first payout, and
/// is over at once only where there is none.
pub proof fn law_current_visits_try_the_first_payout(
    builder: PsbtBuilder<AcceptingCurrentKeychainState>,
    keychain: KeychainId,
    satisfaction_weight: usize,
    change_address: AddressInfo,
    visit: CurrentVisit,
)
    requires
        call_ensures(
            PsbtBuilder::<AcceptingCurrentKeychainState>::visit_bdk_wallet,
            (builder, keychain, satisfaction_weight, change_address),
            visit,
        ),
    ensures
        visit is Unfunded <==> builder@.current_payouts.len() == 0,
        visit is Trial <==> builder@.current_payouts.len() > 0,
        visit matches CurrentVisit::Unfunded(same) ==> same@ == builder@,
        visit matches CurrentVisit::Trial(trial) ==> {
            &&& trial.builder@ == builder@
            &&& trial.keychain_id == keychain
            &&& trial.satisfaction_weight == satisfaction_weight
            &&& trial.change_address == change_address
            &&& trial.max_payout == 0
            &&& trial.plan@ == builder@.trial_plan(keychain, 1)
            &&& !trial.plan.drain_wallet
            &&& trial.plan.drain_to is None
            &&& trial.plan.recipients@.len() == 1
            &&& trial.plan.recipients@[0].script_pubkey@ == builder@.current_payouts[0].1.script()
            &&& trial.plan.recipients@[0].amount == builder@.current_payouts[0].2@
        },
{
    if let CurrentVisit::Trial(trial) = visit {
        assert(is_payable(builder@.current_payouts[0]));
        law_trials_ask_for_the_payouts(builder@, keychain, 1);
        let plan = trial.plan;
        assert(plan@.recipients.len() == plan.recipients@.len());
        assert(plan@.recipients[0] == plan.recipients@[0]@);
    }
}

/// A trial that was built is followed by one with one payout more, if there is one; else
/// the payouts of the trials that were built go into the transaction, and a failure that
/// is not for want of money is handed on.
pub proof fn law_trials_go_on(
    trial: PayoutTrial,
    outcome: TrialOutcome,
    res: Result<CurrentVisit, BdkError>,
)
    requires
        trial.well_formed(),
        call_ensures(PayoutTrial::trial_finished, (trial, outcome), res),
    ensures
        match outcome {
            TrialOutcome::Failed(error) => res matches Err(BdkError::BdkLibError(e)) && e == error,
            TrialOutcome::InsufficientFunds => if trial.max_payout == 0 {
                res matches Ok(CurrentVisit::Unfunded(same)) && same@ == trial.builder@
            } else {
                res matches Ok(CurrentVisit::Build(_))
            },
            TrialOutcome::Built => if trial.max_payout + 1 < trial.builder@.current_payouts.len() {
                res matches Ok(CurrentVisit::Trial(next)) && {
                    &&& next.builder@ == trial.builder@
                    &&& next.keychain_id == trial.keychain_id
                    &&& next.satisfaction_weight == trial.satisfaction_weight
                    &&& next.change_address == trial.change_address
                    &&& next.max_payout == trial.max_payout + 1
                    &&& next.plan.recipients@.len() == trial.max_payout + 2
                    &&& next.plan@ == trial.builder@.trial_plan(
                        trial.keychain_id,
                        trial.max_payout + 2,
                    )
                }
            } else {
                res matches Ok(CurrentVisit::Build(_))
            },
        },
{
    if let Ok(CurrentVisit::Trial(next)) = res {
        super::plans::law_trials_try_one_more(next);
        assert(next.plan@.recipients.len() == next.plan.recipients@.len());
    }
}

/// The build after the last trial makes exactly the payouts that were tried with success,
/// with what was built before, and sends what is left over to the change address without
/// emptying the wallet.
pub proof fn law_trials_end_in_a_build(
    trial: PayoutTrial,
    outcome: TrialOutcome,
    build: WalletBuild,
    n: int,
)
    requires
        trial.well_formed(),
        call_ensures(
            PayoutTrial::trial_finished,
            (trial, outcome),
            Ok::<CurrentVisit, BdkError>(CurrentVisit::Build(build)),
        ),
        n == if outcome is Built {
            trial.max_payout + 1
        } else {
            trial.max_payout as int
        },
    ensures
        0 < n <= trial.builder@.current_payouts.len(),
        build.keychain_id == trial.keychain_id,
        build.satisfaction_weight == trial.satisfaction_weight,
        build.change_address == trial.change_address,
        build.output_satoshis@ == trial.builder@.current_payouts.take(n).fold_left(
            0int,
            |sum: int, payout: TxPayout| sum + payout.2@,
        ),
        build.plan@ == trial.builder@.build_plan(
            trial.keychain_id,
            n,
            trial.change_address.address.script(),
        ),
        build.builder@ == trial.builder@.committed(n),
        !build.plan.drain_wallet,
        build.plan.drain_to is Some,
        build.plan.drain_to->0@ == trial.change_address.address.script(),
        build.plan.ordering == TxOrdering::Bip69Lexicographic,
        build.plan.sighash == Some(SighashType::All),
        Some(build.plan.fee_rate) == trial.builder@.fee_rate,
        build.plan.recipients@.len() == n + match trial.builder@.result.psbt {
            Some(psbt) => psbt.outputs@.len() as int,
            None => 0,
        },
        forall|i: int|
            0 <= i < n ==> {
                &&& (#[trigger] build.plan.recipients@[i]).script_pubkey@
                    == trial.builder@.current_payouts[i].1.script()
                &&& build.plan.recipients@[i].amount == trial.builder@.current_payouts[i].2@
            },
        trial.builder@.result.psbt matches Some(psbt) ==> forall|i: int|
            n <= i < n + psbt.outputs@.len() ==> {
                &&& (#[trigger] build.plan.recipients@[i]).script_pubkey@
                    == psbt.outputs@[i - n].script_pubkey@
                &&& build.plan.recipients@[i].amount == psbt.outputs@[i - n].value
            },
        build.builder@.current_payouts == trial.builder@.current_payouts.skip(n),
        build.builder@.current_wallet == trial.builder@.current_wallet,
        build.builder@.current_wallet_psbts.len() == 0,
        build.builder@.result.psbt is None,
        build.builder@.result.fee_satoshis == trial.builder@.result.fee_satoshis,
        build.builder@.result.wallet_totals == trial.builder@.result.wallet_totals,
        build.builder@.input_weights == trial.builder@.input_weights,
{
    let before = trial.builder@;
    let plan = build.plan;
    assert forall|i: int| 0 <= i < n implies 0 <= (#[trigger] before.current_payouts[i]).2@
        <= u64::MAX by {
        assert(is_payable(before.current_payouts[i]));
    }
    law_builds_make_the_chosen_payouts(trial, n, build);
    super::plans::law_builds_ask_for_payouts_and_outputs(
        before,
        trial.keychain_id,
        n,
        trial.change_address.address.script(),
    );
    super::states::law_commits_use_up_what_is_open(before, n);
    assert(plan@.recipients.len() == plan.recipients@.len());
    let planned = before.build_plan(trial.keychain_id, n, trial.change_address.address.script());
    assert(plan@ == planned);
    assert forall|i: int| 0 <= i < n implies {
        &&& (#[trigger] plan.recipients@[i]).script_pubkey@ == before.current_payouts[i].1.script()
        &&& plan.recipients@[i].amount == before.current_payouts[i].2@
    } by {
        assert(plan@.recipients[i] == plan.recipients@[i]@);
    }
    if let Some(psbt) = before.result.psbt {
        assert forall|i: int| n <= i < n + psbt.outputs@.len() implies {
            &&& (#[trigger] plan.recipients@[i]).script_pubkey@
                == psbt.outputs@[i - n].script_pubkey@
            &&& plan.recipients@[i].amount == psbt.outputs@[i - n].value
        } by {
            assert(plan@.recipients[i] == plan.recipients@[i]@);
            assert(plan@.recipients[i] == (
                psbt.outputs@[i - n].script_pubkey@,
                psbt.outputs@[i - n].value,
            ));
        }
    }
}

/// The inputs that a build has to take over from other wallets and keychains are those of
/// the open drains and those of the transaction built before, and no others.
pub proof fn law_builds_take_over_all_inputs(
    trial: PayoutTrial,
    outcome: TrialOutcome,
    build: WalletBuild,
    outpoint: OutPoint,
)
    requires
        trial.well_formed(),
        call_ensures(
            PayoutTrial::trial_finished,
            (trial, outcome),
            Ok::<CurrentVisit, BdkError>(CurrentVisit::Build(build)),
        ),
    ensures
        (exists|i: int|
            0 <= i < build.plan.foreign_utxos@.len()
                && (#[trigger] build.plan.foreign_utxos@[i]).outpoint == outpoint) <==> (exists|
            a: int,
            b: int,
        |
            0 <= a < trial.builder@.current_wallet_psbts.len() && 0 <= b
                < trial.builder@.current_wallet_psbts[a].1.inputs@.len()
                && (#[trigger] trial.builder@.current_wallet_psbts[a].1.inputs@[b]).previous_output
                == outpoint) || (trial.builder@.result.psbt is Some && exists|b: int|
            0 <= b < trial.builder@.result.psbt->0.inputs@.len()
                && (#[trigger] trial.builder@.result.psbt->0.inputs@[b]).previous_output
                == outpoint),
{
    let before = trial.builder@;
    let n = trial.payouts_after(outcome);
    let script = trial.change_address.address.script();
    let planned = before.build_plan(trial.keychain_id, n, script);
    let tried = before.trial_plan(trial.keychain_id, n);
    law_trials_spend_exactly_what_was_drained(before, trial.keychain_id, n, outpoint);
    assert(build.plan@ == planned);
    let all = build.plan.foreign_utxos@;
    let drained = tried.foreign_utxos;
    let k = drained.len() as int;
    if exists|i: int| 0 <= i < all.len() && (#[trigger] all[i]).outpoint == outpoint {
        let i = choose|i: int| 0 <= i < all.len() && (#[trigger] all[i]).outpoint == outpoint;
        if i < k {
            assert(drained[i].outpoint == outpoint);
        } else {
            assert(before.result.psbt is Some);
            assert(before.result.psbt->0.inputs@[i - k].previous_output == outpoint);
        }
    }
    if exists|i: int| 0 <= i < drained.len() && (#[trigger] drained[i]).outpoint == outpoint {
        let i = choose|i: int|
            0 <= i < drained.len() && (#[trigger] drained[i]).outpoint == outpoint;
        assert(all[i].outpoint == outpoint);
    }
    if before.result.psbt is Some && exists|b: int|
        0 <= b < before.result.psbt->0.inputs@.len()
            && (#[trigger] before.result.psbt->0.inputs@[b]).previous_output == outpoint {
        let b = choose|b: int|
            0 <= b < before.result.psbt->0.inputs@.len()
                && (#[trigger] before.result.psbt->0.inputs@[b]).previous_output == outpoint;
        assert(all[k + b].outpoint == outpoint);
    }
}

/// A transaction that was built gives its wallet its totals and takes the place of the one
/// before. `change` is the first output to the change address.
pub proof fn law_finished_builds_have_totals(
    build: WalletBuild,
    built: BuiltTx,
    now: PsbtBuilder<AcceptingCurrentKeychainState>,
    change: int,
)
    requires
        build.builder@.current_wallet is Some,
        call_ensures(WalletBuild::finished, (build, built), now),
        0 <= change < built.psbt.outputs@.len(),
        built.psbt.outputs@[change].script_pubkey@ == build.change_address.address.script(),
        forall|j: int|
            0 <= j < change ==> (#[trigger] built.psbt.outputs@[j]).script_pubkey@
                != build.change_address.address.script(),
    ensures
        ({
            let total = now@.result.wallet_totals[build.builder@.current_wallet->0];
            &&& now@.result.wallet_totals.contains_key(build.builder@.current_wallet->0)
            &&& total.change_satoshis == built.psbt.outputs@[change].value
            &&& total.fee_satoshis == built.fee - build.builder@.result.fee_satoshis
            &&& total.output_satoshis == build.output_satoshis@
            &&& total.input_satoshis == build.output_satoshis@ + built.fee
                - build.builder@.result.fee_satoshis + built.psbt.outputs@[change].value
            &&& total.change_keychain_id == build.keychain_id
            &&& total.change_address == build.change_address
        }),
        now@ == build.builder@.completed(
            build.keychain_id,
            build.satisfaction_weight,
            build.change_address,
            build.output_satoshis@,
            built,
        ),
        now@.result.psbt == Some(built.psbt),
        now@.result.tx_id == Some(built.txid),
        now@.result.fee_satoshis == built.fee,
        now@.result.included_payouts == build.builder@.result.included_payouts,
        now@.current_payouts == build.builder@.current_payouts,
{
    super::states::law_totals_of_a_built_transaction(
        build.builder@,
        build.keychain_id,
        build.satisfaction_weight,
        build.change_address,
        build.output_satoshis@,
        built,
    );
}

/// Where no output pays to the change address, the wallet gets no change.
pub proof fn law_finished_builds_without_change(
    build: WalletBuild,
    built: BuiltTx,
    now: PsbtBuilder<AcceptingCurrentKeychainState>,
)
    requires
        build.builder@.current_wallet is Some,
        call_ensures(WalletBuild::finished, (build, built), now),
        forall|j: int|
            0 <= j < built.psbt.outputs@.len()
                ==> (#[trigger] built.psbt.outputs@[j]).script_pubkey@
                != build.change_address.address.script(),
    ensures
        ({
            let total = now@.result.wallet_totals[build.builder@.current_wallet->0];
            &&& now@.result.wallet_totals.contains_key(build.builder@.current_wallet->0)
            &&& total.change_satoshis == 0
            &&& total.input_satoshis == build.output_satoshis@ + built.fee
                - build.builder@.result.fee_satoshis
        }),
        now@ == build.builder@.completed(
            build.keychain_id,
            build.satisfaction_weight,
            build.change_address,
            build.output_satoshis@,
            built,
        ),
{
    super::states::law_totals_of_a_built_transaction(
        build.builder@,
        build.keychain_id,
        build.satisfaction_weight,
        build.change_address,
        build.output_satoshis@,
        built,
    );
}

/// What a builder answers about itself is so.
pub proof fn law_builders_tell_the_truth<T>(
    builder: PsbtBuilder<T>,
    current: PsbtBuilder<AcceptingCurrentKeychainState>,
    n: usize,
    has_fee_rate: bool,
    has_no_open_psbts: bool,
    has_payouts: bool,
    is_payable: bool,
)
    requires
        call_ensures(PsbtBuilder::<T>::has_fee_rate, (&builder,), has_fee_rate),
        call_ensures(PsbtBuilder::<T>::has_no_open_psbts, (&builder,), has_no_open_psbts),
        call_ensures(
            PsbtBuilder::<AcceptingCurrentKeychainState>::has_payouts,
            (&current,),
            has_payouts,
        ),
        call_ensures(
            PsbtBuilder::<AcceptingCurrentKeychainState>::payout_is_payable,
            (&current, n),
            is_payable,
        ),
    ensures
        has_fee_rate <==> builder@.fee_rate is Some,
        has_no_open_psbts <==> builder@.current_wallet_psbts.len() == 0,
        has_payouts <==> current@.current_payouts.len() > 0,
        is_payable <==> n >= current@.current_payouts.len() || 0
            <= current@.current_payouts[n as int].2@ <= 0xffff_ffff_ffff_ffff,
{
}

/// The first payouts sum up exactly if 96 bits hold the sum.
pub proof fn law_payouts_that_sum_up(
    builder: PsbtBuilder<AcceptingCurrentKeychainState>,
    n: usize,
    sums_up: bool,
)
    requires
        n <= builder@.current_payouts.len(),
        call_ensures(
            PsbtBuilder::<AcceptingCurrentKeychainState>::payouts_sum_up,
            (&builder, n),
            sums_up,
        ),
    ensures
        sums_up <==> {
            let sum = builder@.current_payouts.take(n as int).fold_left(
                0int,
                |sum: int, payout: TxPayout| sum + payout.2@,
            );
            -0x1_0000_0000_0000_0000_0000_0000 < sum < 0x1_0000_0000_0000_0000_0000_0000
        },
{
    law_payouts_sum_up(builder@.current_payouts, n as nat);
}

/// The totals of a build fit exactly if 96 bits hold what the wallet spends, without and
/// with the change that it gets at output `change`.
pub proof fn law_totals_that_fit(build: WalletBuild, built: BuiltTx, fit: bool, change: int)
    requires
        call_ensures(WalletBuild::totals_fit, (&build, &built), fit),
        0 <= change < built.psbt.outputs@.len(),
        built.psbt.outputs@[change].script_pubkey@ == build.change_address.address.script(),
        forall|j: int|
            0 <= j < change ==> (#[trigger] built.psbt.outputs@[j]).script_pubkey@
                != build.change_address.address.script(),
    ensures
        fit <==> {
            let spent = build.output_satoshis@ + built.fee - build.builder@.result.fee_satoshis;
            let input = spent + built.psbt.outputs@[change].value;
            &&& -0x1_0000_0000_0000_0000_0000_0000 < spent < 0x1_0000_0000_0000_0000_0000_0000
            &&& -0x1_0000_0000_0000_0000_0000_0000 < input < 0x1_0000_0000_0000_0000_0000_0000
        },
{
    law_change_is_the_first_output_to_the_script(
        built.psbt.outputs@,
        build.change_address.address.script(),
    );
}

/// Without an output to the change address the totals of a build fit exactly if 96 bits
/// hold what the wallet spends.
pub proof fn law_totals_that_fit_without_change(build: WalletBuild, built: BuiltTx, fit: bool)
    requires
        call_ensures(WalletBuild::totals_fit, (&build, &built), fit),
        forall|j: int|
            0 <= j < built.psbt.outputs@.len()
                ==> (#[trigger] built.psbt.outputs@[j]).script_pubkey@
                != build.change_address.address.script(),
    ensures
        fit <==> {
            let spent = build.output_satoshis@ + built.fee - build.builder@.result.fee_satoshis;
            -0x1_0000_0000_0000_0000_0000_0000 < spent < 0x1_0000_0000_0000_0000_0000_0000
        },
{
    law_change_is_the_first_output_to_the_script(
        built.psbt.outputs@,
        build.change_address.address.script(),
    );
}

/// A build that is finished keeps its transaction, its amounts and what it spends, whether
/// it is finished between wallets, after a visit or by itself.
pub proof fn law_finishing_builders(
    waiting: PsbtBuilder<AcceptingWalletState>,
    current: PsbtBuilder<AcceptingCurrentKeychainState>,
    build: FinishedPsbtBuild,
    done: FinishedPsbtBuild,
    wallet: WalletId,
)
    requires
        (call_ensures(PsbtBuilder::<AcceptingWalletState>::finish, (waiting,), done)
            && waiting@.result == build@) || (call_ensures(
            PsbtBuilder::<AcceptingCurrentKeychainState>::finish,
            (current,),
            done,
        ) && current@.result == build@) || call_ensures(
            FinishedPsbtBuild::settle,
            (build,),
            done,
        ),
        build@.wallet_totals.contains_key(wallet),
    ensures
        build@.finishes_to(done@),
        done@.tx_id == build@.tx_id,
        done@.psbt == build@.psbt,
        done@.fee_satoshis == build@.fee_satoshis,
        done@.included_utxos == build@.included_utxos,
        done@.included_wallet_keychains == build@.included_wallet_keychains,
        done@.wallet_totals.dom() == build@.wallet_totals.dom(),
        done@.wallet_totals[wallet].input_satoshis == build@.wallet_totals[wallet].input_satoshis,
        done@.wallet_totals[wallet].output_satoshis
            == build@.wallet_totals[wallet].output_satoshis,
        done@.wallet_totals[wallet].fee_satoshis == build@.wallet_totals[wallet].fee_satoshis,
        done@.wallet_totals[wallet].change_satoshis
            == build@.wallet_totals[wallet].change_satoshis,
        done@.wallet_totals[wallet].change_address == build@.wallet_totals[wallet].change_address,
{
    law_finishing_keeps_the_rest(build@, done@);
}

/// A finished build names, for each payout, an output that pays it, and for each wallet
/// with change, the first output that brings it.
pub proof fn law_settled_builds_name_outputs(
    build: FinishedPsbtBuild,
    done: FinishedPsbtBuild,
    wallet: WalletId,
    i: int,
)
    requires
        build@.outputs_accounted_for(),
        call_ensures(FinishedPsbtBuild::settle, (build,), done),
        build@.tx_id is Some,
        build@.psbt is Some,
        build@.psbt->0.outputs@.len() <= u32::MAX,
    ensures
        build@.included_payouts.contains_key(wallet) && 0 <= i
            < build@.included_payouts[wallet].len() ==> {
            let (payout, vout) = done@.included_payouts[wallet][i];
            &&& payout == build@.included_payouts[wallet][i].0
            &&& vout < build@.psbt->0.outputs@.len()
            &&& build@.psbt->0.outputs@[vout as int].script_pubkey@ == payout.1.script()
            &&& build@.psbt->0.outputs@[vout as int].value == payout.2@
        },
        build@.wallet_totals.contains_key(wallet) && build@.wallet_totals[wallet].change_satoshis
            != 0 ==> {
            let total = done@.wallet_totals[wallet];
            let outputs = build@.psbt->0.outputs@;
            &&& total.change_outpoint is Some
            &&& Some(total.change_outpoint->0.txid) == build@.tx_id
            &&& total.change_outpoint->0.vout < outputs.len()
            &&& outputs[total.change_outpoint->0.vout as int].script_pubkey@
                == total.change_address.address.script()
            &&& outputs[total.change_outpoint->0.vout as int].value == total.change_satoshis
        },
{
    if build@.included_payouts.contains_key(wallet) && 0 <= i
        < build@.included_payouts[wallet].len() {
        law_finished_payouts(build@, done@, wallet, i);
    }
    law_finishing_keeps_the_rest(build@, done@);
    if build@.wallet_totals.contains_key(wallet) {
        law_finished_change(build@, done@, wallet);
    }
}

/// Whether all outputs are accounted for is answered of the build that is asked about, in
/// a builder as in a finished build.
pub proof fn law_accounting_is_answered<T>(
    builder: PsbtBuilder<T>,
    build: FinishedPsbtBuild,
    of_builder: bool,
    of_build: bool,
)
    requires
        call_ensures(PsbtBuilder::<T>::outputs_accounted_for, (&builder,), of_builder),
        call_ensures(FinishedPsbtBuild::outputs_accounted_for, (&build,), of_build),
    ensures
        of_builder <==> builder@.result.outputs_accounted_for(),
        of_build <==> build@.outputs_accounted_for(),
        builder@.result == build@ ==> of_builder == of_build,
        build.tx_id is None || build.psbt is None ==> of_build,
{
}

} // verus!
