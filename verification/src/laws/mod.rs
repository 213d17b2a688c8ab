//! What holds of the library as a whole, above all of builds.

pub mod booking;
pub mod calls;
pub mod events;
pub mod finishing;
pub mod inputs;
pub mod keychains;
pub mod outputs;
pub mod plans;
pub mod records;
pub mod runs;
pub mod shares;
pub mod states;
pub mod steps;
pub mod views;

use vstd::prelude::*;

use crate::builder::current::{PayoutTrial, TrialOutcome};
use crate::builder_model::{sum_payouts, BuilderView};
use crate::finished::{FinishedView, WalletTotalsView};
use crate::placement::{lists_once, payout_sats};
use crate::primitives::{KeychainId, OutPoint, WalletId};
use crate::psbt::{BuiltTx, Psbt, TxPayout, TxPlanView};
use crate::script::AddressInfo;

verus! {

// ---------------------------------------------------------------------------
// Payouts
// ---------------------------------------------------------------------------
/// No payout is lost or made twice when a wallet's first payouts go into the
/// transaction: what was listed before, then those payouts, then those that are
/// left over are what there was.
pub proof fn law_payouts_are_kept(builder: BuilderView, n: int)
    requires
        builder.current_wallet is Some,
        0 <= n <= builder.current_payouts.len(),
    ensures
        ({
            let wallet = builder.current_wallet->0;
            let before = builder.result.included_payouts;
            let now = builder.committed(n).result.included_payouts;
            let listed = if before.contains_key(wallet) {
                before[wallet]
            } else {
                Seq::empty()
            };
            &&& now.contains_key(wallet)
            &&& listed.map_values(|entry: (TxPayout, u32)| entry.0) + builder.current_payouts
                == now[wallet].map_values(|entry: (TxPayout, u32)| entry.0) + builder.committed(
                n,
            ).current_payouts
            &&& now.remove(wallet) == before.remove(wallet)
        }),
{
    let wallet = builder.current_wallet->0;
    let before = builder.result.included_payouts;
    let now = builder.committed(n).result.included_payouts;
    let listed = if before.contains_key(wallet) {
        before[wallet]
    } else {
        Seq::empty()
    };
    assert(now[wallet] == listed + builder.current_payouts.take(n).map_values(
        |payout: TxPayout| (payout, 0u32),
    ));
    assert(listed.map_values(|entry: (TxPayout, u32)| entry.0) + builder.current_payouts
        =~= now[wallet].map_values(|entry: (TxPayout, u32)| entry.0) + builder.committed(
        n,
    ).current_payouts);
    assert(now.remove(wallet) =~= before.remove(wallet));
}

/// The number of payouts that a wallet makes: from `n` on, one more as long as
/// there is one more and `fundable` says that the wallet can pay that many.
pub open spec fn chosen_payouts(fundable: spec_fn(int) -> bool, count: int, n: int) -> int
    decreases count - n,
{
    if n >= count || !fundable(n + 1) {
        n
    } else {
        chosen_payouts(fundable, count, n + 1)
    }
}

/// A wallet makes the longest run of its payouts, from the first on, of which each
/// beginning can be paid.
pub proof fn law_chosen_payouts_are_longest(fundable: spec_fn(int) -> bool, count: int, n: int)
    requires
        0 <= n <= count,
    ensures
        n <= chosen_payouts(fundable, count, n) <= count,
        forall|k: int| n < k <= chosen_payouts(fundable, count, n) ==> #[trigger] fundable(k),
        chosen_payouts(fundable, count, n) < count ==> !fundable(
            chosen_payouts(fundable, count, n) + 1,
        ),
    decreases count - n,
{
    if n < count && fundable(n + 1) {
        law_chosen_payouts_are_longest(fundable, count, n + 1);
    }
}

/// Where the trials are answered as `fundable` says, a visit ends with the number
/// of payouts that [`chosen_payouts`] tells: a trial that another one follows does
/// not change it, and the last trial ends with it.
pub proof fn law_trials_choose_payouts(
    trial: PayoutTrial,
    outcome: TrialOutcome,
    fundable: spec_fn(int) -> bool,
)
    requires
        trial.well_formed(),
        !(outcome is Failed),
        outcome is Built <==> fundable(trial.max_payout + 1),
    ensures
        ({
            let count = trial.builder@.current_payouts.len() as int;
            let chosen = chosen_payouts(fundable, count, trial.max_payout as int);
            if trial.continues_after(outcome) {
                chosen == chosen_payouts(fundable, count, trial.max_payout + 1)
            } else {
                chosen == trial.payouts_after(outcome)
            }
        }),
{
    reveal_with_fuel(chosen_payouts, 2);
}

/// Does the plan spend `outpoint` of another wallet?
pub open spec fn spends_foreign(plan: TxPlanView, outpoint: OutPoint) -> bool {
    exists|i: int|
        0 <= i < plan.foreign_utxos.len() && (#[trigger] plan.foreign_utxos[i]).outpoint
            == outpoint
}

/// The transaction that is built for a wallet has what its trial asked for, and
/// repeats every output and every input of the transaction built before.
pub proof fn law_build_plan_repeats(
    builder: BuilderView,
    keychain: KeychainId,
    n: int,
    change_script: Seq<u8>,
)
    requires
        0 <= n <= builder.current_payouts.len(),
    ensures
        ({
            let trial = builder.trial_plan(keychain, n);
            let build = builder.build_plan(keychain, n, change_script);
            &&& trial.recipients.is_prefix_of(build.recipients)
            &&& trial.foreign_utxos.is_prefix_of(build.foreign_utxos)
            &&& trial.unspendable == build.unspendable
            &&& builder.result.psbt matches Some(psbt) ==> {
                &&& forall|i: int|
                    0 <= i < psbt.outputs@.len() ==> build.recipients.contains(
                        ((#[trigger] psbt.outputs@[i]).script_pubkey@, psbt.outputs@[i].value),
                    )
                &&& forall|i: int|
                    0 <= i < psbt.inputs@.len() ==> spends_foreign(
                        build,
                        (#[trigger] psbt.inputs@[i]).previous_output,
                    )
            }
        }),
{
    let trial = builder.trial_plan(keychain, n);
    let build = builder.build_plan(keychain, n, change_script);
    assert(build.recipients.take(trial.recipients.len() as int) =~= trial.recipients);
    assert(build.foreign_utxos.take(trial.foreign_utxos.len() as int) =~= trial.foreign_utxos);
    if let Some(psbt) = builder.result.psbt {
        assert forall|i: int| 0 <= i < psbt.outputs@.len() implies build.recipients.contains(
            ((#[trigger] psbt.outputs@[i]).script_pubkey@, psbt.outputs@[i].value),
        ) by {
            assert(build.recipients[trial.recipients.len() + i] == (
                psbt.outputs@[i].script_pubkey@,
                psbt.outputs@[i].value,
            ));
        }
        assert forall|i: int| 0 <= i < psbt.inputs@.len() implies spends_foreign(
            build,
            (#[trigger] psbt.inputs@[i]).previous_output,
        ) by {
            assert(build.foreign_utxos[trial.foreign_utxos.len() + i].outpoint
                == psbt.inputs@[i].previous_output);
        }
    }
}

/// How a build is configured never changes once wallets have their turn.
pub proof fn law_configuration_is_kept(
    builder: BuilderView,
    wallet: WalletId,
    payouts: Seq<TxPayout>,
    n: int,
    keychain: KeychainId,
    satisfaction_weight: usize,
    psbt: Psbt,
    change_address: AddressInfo,
    output: int,
    built: BuiltTx,
)
    ensures
        builder.same_configuration(builder.between_wallets()),
        builder.same_configuration(builder.for_wallet(wallet, payouts)),
        builder.same_configuration(builder.drained(keychain, satisfaction_weight, psbt)),
        builder.same_configuration(builder.committed(n)),
        builder.same_configuration(
            builder.completed(keychain, satisfaction_weight, change_address, output, built),
        ),
{
}

/// No transaction that a keychain's wallet is asked for may spend what is reserved
/// of the keychain.
pub proof fn law_reserved_utxos_are_unspendable(
    builder: BuilderView,
    keychain: KeychainId,
    n: int,
    script: Seq<u8>,
)
    requires
        builder.reserved_utxos is Some,
        builder.reserved_utxos->0.contains_key(keychain),
    ensures
        builder.drain_plan(keychain, script).unspendable == builder.reserved_utxos->0[keychain],
        builder.trial_plan(keychain, n).unspendable == builder.reserved_utxos->0[keychain],
        builder.build_plan(keychain, n, script).unspendable
            == builder.reserved_utxos->0[keychain],
{
}

// ---------------------------------------------------------------------------
// Fees
// ---------------------------------------------------------------------------
/// What the fees of the listed wallets come to.
pub open spec fn sum_fees(totals: Map<WalletId, WalletTotalsView>, wallets: Seq<WalletId>) -> int
    decreases wallets.len(),
{
    if wallets.len() == 0 {
        0
    } else {
        sum_fees(totals, wallets.drop_last()) + totals[wallets.last()].fee_satoshis
    }
}

/// Do the fees of all wallets come to the fee of the transaction?
pub open spec fn fees_add_up(result: FinishedView) -> bool {
    forall|wallets: Seq<WalletId>| #[trigger]
        lists_once(wallets, result.wallet_totals.dom()) ==> sum_fees(result.wallet_totals, wallets)
            == result.fee_satoshis
}

proof fn lemma_sum_fees_without(
    totals: Map<WalletId, WalletTotalsView>,
    wallets: Seq<WalletId>,
    i: int,
)
    requires
        0 <= i < wallets.len(),
    ensures
        sum_fees(totals, wallets) == sum_fees(totals, wallets.remove(i))
            + totals[wallets[i]].fee_satoshis,
    decreases wallets.len(),
{
    if i == wallets.len() - 1 {
        assert(wallets.remove(i) =~= wallets.drop_last());
    } else {
        lemma_sum_fees_without(totals, wallets.drop_last(), i);
        assert(wallets.remove(i).drop_last() =~= wallets.drop_last().remove(i));
        assert(wallets.remove(i).last() == wallets.last());
    }
}

proof fn lemma_sum_fees_of_others(
    totals: Map<WalletId, WalletTotalsView>,
    wallet: WalletId,
    total: WalletTotalsView,
    wallets: Seq<WalletId>,
)
    requires
        !wallets.contains(wallet),
    ensures
        sum_fees(totals.insert(wallet, total), wallets) == sum_fees(totals, wallets),
    decreases wallets.len(),
{
    if wallets.len() > 0 {
        assert(wallets.last() != wallet) by {
            assert(wallets.contains(wallets.last()));
        }
        assert(!wallets.drop_last().contains(wallet)) by {
            if wallets.drop_last().contains(wallet) {
                let k = choose|k: int|
                    0 <= k < wallets.drop_last().len() && wallets.drop_last()[k] == wallet;
                assert(wallets[k] == wallet);
            }
        }
        lemma_sum_fees_of_others(totals, wallet, total, wallets.drop_last());
    }
}

/// A build starts with fees that add up.
pub proof fn law_fees_add_up_at_first()
    ensures
        fees_add_up(BuilderView::initial().result),
{
    let result = BuilderView::initial().result;
    assert forall|wallets: Seq<WalletId>| #[trigger]
        lists_once(wallets, result.wallet_totals.dom()) implies sum_fees(
        result.wallet_totals,
        wallets,
    ) == result.fee_satoshis by {
        if wallets.len() > 0 {
            assert(wallets.to_set().contains(wallets[0]));
        }
    }
}

/// Where every wallet has one turn, the fees of the wallets come to the fee of the
/// transaction: a wallet that had no turn before keeps it so.
pub proof fn law_fees_add_up(
    builder: BuilderView,
    keychain: KeychainId,
    satisfaction_weight: usize,
    change_address: AddressInfo,
    output: int,
    built: BuiltTx,
)
    requires
        builder.current_wallet is Some,
        !builder.result.wallet_totals.contains_key(builder.current_wallet->0),
        fees_add_up(builder.result),
    ensures
        fees_add_up(
            builder.completed(
                keychain,
                satisfaction_weight,
                change_address,
                output,
                built,
            ).result,
        ),
{
    let wallet = builder.current_wallet->0;
    let before = builder.result;
    let now = builder.completed(
        keychain,
        satisfaction_weight,
        change_address,
        output,
        built,
    ).result;
    let total = builder.totals_of(keychain, change_address, output, built);
    assert forall|wallets: Seq<WalletId>| #[trigger]
        lists_once(wallets, now.wallet_totals.dom()) implies sum_fees(now.wallet_totals, wallets)
        == now.fee_satoshis by {
        assert(wallets.to_set().contains(wallet));
        let i = choose|i: int| 0 <= i < wallets.len() && wallets[i] == wallet;
        let others = wallets.remove(i);
        lemma_sum_fees_without(now.wallet_totals, wallets, i);
        assert(!others.contains(wallet)) by {
            if others.contains(wallet) {
                let k = choose|k: int| 0 <= k < others.len() && others[k] == wallet;
                assert(wallets[if k < i { k } else { k + 1 }] == wallet);
            }
        }
        lemma_sum_fees_of_others(before.wallet_totals, wallet, total, others);
        assert(others.no_duplicates());
        assert(others.to_set() =~= before.wallet_totals.dom()) by {
            assert forall|w: WalletId| #[trigger]
                before.wallet_totals.dom().contains(w) implies others.to_set().contains(w) by {
                assert(wallets.to_set().contains(w));
                let k = choose|k: int| 0 <= k < wallets.len() && wallets[k] == w;
                assert(others[if k < i { k } else { k - 1 }] == w);
            }
            assert forall|w: WalletId| #[trigger] others.to_set().contains(w) implies
                before.wallet_totals.dom().contains(w) by {
                let k = choose|k: int| 0 <= k < others.len() && others[k] == w;
                assert(wallets[if k < i { k } else { k + 1 }] == w);
                assert(wallets.to_set().contains(w));
            }
        }
        assert(lists_once(others, before.wallet_totals.dom()));
    }
}

/// The fees stay as they are until the transaction with the payouts of one more
/// wallet is built.
pub proof fn law_fees_stay_until_built(
    builder: BuilderView,
    wallet: WalletId,
    payouts: Seq<TxPayout>,
    n: int,
    keychain: KeychainId,
    satisfaction_weight: usize,
    psbt: Psbt,
)
    requires
        fees_add_up(builder.result),
    ensures
        fees_add_up(builder.between_wallets().result),
        fees_add_up(builder.for_wallet(wallet, payouts).result),
        fees_add_up(builder.drained(keychain, satisfaction_weight, psbt).result),
        fees_add_up(builder.committed(n).result),
{
    let totals = builder.result.wallet_totals;
    assert(builder.committed(n).result.wallet_totals == totals);
    assert(builder.for_wallet(wallet, payouts).result.wallet_totals == totals);
    assert(builder.drained(keychain, satisfaction_weight, psbt).result.wallet_totals == totals);
}

proof fn lemma_sum_of_same_fees(
    totals: Map<WalletId, WalletTotalsView>,
    other: Map<WalletId, WalletTotalsView>,
    wallets: Seq<WalletId>,
)
    requires
        forall|i: int|
            0 <= i < wallets.len() ==> totals[#[trigger] wallets[i]].fee_satoshis
                == other[wallets[i]].fee_satoshis,
    ensures
        sum_fees(totals, wallets) == sum_fees(other, wallets),
    decreases wallets.len(),
{
    if wallets.len() > 0 {
        assert forall|i: int| 0 <= i < wallets.len() - 1 implies totals[
            #[trigger] wallets.drop_last()[i]
        ].fee_satoshis == other[wallets.drop_last()[i]].fee_satoshis by {
            assert(wallets.drop_last()[i] == wallets[i]);
        }
        lemma_sum_of_same_fees(totals, other, wallets.drop_last());
        assert(totals[wallets[wallets.len() - 1]].fee_satoshis
            == other[wallets[wallets.len() - 1]].fee_satoshis);
    }
}

/// The fees of the wallets come to the fee of the transaction in a finished build, as
/// in the build that it comes from.
pub proof fn law_finished_fees_add_up(build: FinishedView, done: FinishedView)
    requires
        fees_add_up(build),
        build.finishes_to(done),
    ensures
        fees_add_up(done),
{
    assert forall|wallets: Seq<WalletId>| #[trigger]
        lists_once(wallets, done.wallet_totals.dom()) implies sum_fees(done.wallet_totals, wallets)
        == done.fee_satoshis by {
        assert forall|i: int| 0 <= i < wallets.len() implies done.wallet_totals[
            #[trigger] wallets[i]
        ].fee_satoshis == build.wallet_totals[wallets[i]].fee_satoshis by {
            assert(wallets.to_set().contains(wallets[i]));
            assert(build.wallet_totals.contains_key(wallets[i]));
        }
        lemma_sum_of_same_fees(done.wallet_totals, build.wallet_totals, wallets);
        assert(lists_once(wallets, build.wallet_totals.dom()));
    }
}

/// What the first `n` payouts of a list come to.
pub open spec fn sum_listed(list: Seq<(TxPayout, u32)>, n: nat) -> int
    decreases n,
{
    if n == 0 {
        0
    } else {
        sum_listed(list, (n - 1) as nat) + payout_sats(list[n - 1])
    }
}

/// Is what each wallet pays out the sum of its payouts?
pub open spec fn outputs_are_payouts(result: FinishedView) -> bool {
    forall|wallet: WalletId| #[trigger]
        result.wallet_totals.contains_key(wallet) ==> result.wallet_totals[wallet].output_satoshis
            == sum_listed(
            result.included_payouts[wallet],
            result.included_payouts[wallet].len(),
        )
}

proof fn lemma_sum_listed(list: Seq<(TxPayout, u32)>, payouts: Seq<TxPayout>, n: nat)
    requires
        n <= list.len(),
        n <= payouts.len(),
        forall|i: int| 0 <= i < n ==> (#[trigger] list[i]).0 == payouts[i],
    ensures
        sum_listed(list, n) == sum_payouts(payouts, n),
    decreases n,
{
    if n > 0 {
        lemma_sum_listed(list, payouts, (n - 1) as nat);
        assert(list[n - 1].0 == payouts[n - 1]);
    }
}

proof fn lemma_sum_of_same_payouts(
    list: Seq<(TxPayout, u32)>,
    other: Seq<(TxPayout, u32)>,
    n: nat,
)
    requires
        n <= list.len(),
        n <= other.len(),
        forall|i: int| 0 <= i < n ==> (#[trigger] list[i]).0 == other[i].0,
    ensures
        sum_listed(list, n) == sum_listed(other, n),
    decreases n,
{
    if n > 0 {
        lemma_sum_of_same_payouts(list, other, (n - 1) as nat);
        assert(list[n - 1].0 == other[n - 1].0);
    }
}

/// A build starts with no wallet that pays out.
pub proof fn law_outputs_are_payouts_at_first()
    ensures
        outputs_are_payouts(BuilderView::initial().result),
{
}

/// Where every wallet has one turn, what a wallet pays out is the sum of its
/// payouts: the turn of a wallet that had none before keeps it so.
pub proof fn law_outputs_are_payouts(
    builder: BuilderView,
    n: int,
    keychain: KeychainId,
    satisfaction_weight: usize,
    change_address: AddressInfo,
    built: BuiltTx,
)
    requires
        builder.ready_for_wallet(),
        !builder.result.wallet_totals.contains_key(builder.current_wallet->0),
        0 <= n <= builder.current_payouts.len(),
        outputs_are_payouts(builder.result),
    ensures
        outputs_are_payouts(
            builder.committed(n).completed(
                keychain,
                satisfaction_weight,
                change_address,
                sum_payouts(builder.current_payouts, n as nat),
                built,
            ).result,
        ),
{
    let wallet = builder.current_wallet->0;
    let before = builder.result;
    let now = builder.committed(n).completed(
        keychain,
        satisfaction_weight,
        change_address,
        sum_payouts(builder.current_payouts, n as nat),
        built,
    ).result;
    assert(!before.included_payouts.contains_key(wallet)) by {
        assert(!before.wallet_totals.dom().contains(wallet));
    }
    let list = now.included_payouts[wallet];
    assert(list =~= builder.current_payouts.take(n).map_values(
        |payout: TxPayout| (payout, 0u32),
    ));
    lemma_sum_listed(list, builder.current_payouts, n as nat);
    assert forall|w: WalletId| #[trigger]
        now.wallet_totals.contains_key(w) implies now.wallet_totals[w].output_satoshis
        == sum_listed(now.included_payouts[w], now.included_payouts[w].len()) by {
        if w != wallet {
            assert(before.wallet_totals.contains_key(w));
        }
    }
}

/// Finishing a build changes neither what a wallet pays out nor its payouts.
pub proof fn law_finished_outputs_are_payouts(build: FinishedView, done: FinishedView)
    requires
        build.included_payouts.dom() == build.wallet_totals.dom(),
        outputs_are_payouts(build),
        build.finishes_to(done),
    ensures
        outputs_are_payouts(done),
{
    assert forall|wallet: WalletId| #[trigger]
        done.wallet_totals.contains_key(wallet) implies done.wallet_totals[wallet].output_satoshis
        == sum_listed(
        done.included_payouts[wallet],
        done.included_payouts[wallet].len(),
    ) by {
        assert(build.wallet_totals.contains_key(wallet));
        if build.has_transaction() {
            let order = choose|order: Seq<WalletId>| #[trigger] build.vouts_noted(order, done);
            assert(build.included_payouts.dom().contains(wallet));
            assert(build.included_payouts.contains_key(wallet));
            lemma_sum_of_same_payouts(
                done.included_payouts[wallet],
                build.included_payouts[wallet],
                build.included_payouts[wallet].len(),
            );
        }
    }
}

/// Every wallet's input pays for its payouts, its part of the fee and its change,
/// in a finished build as in the build that it comes from.
pub proof fn law_finished_totals_balance(build: FinishedView, done: FinishedView)
    requires
        build.totals_balance(),
        build.finishes_to(done),
    ensures
        done.totals_balance(),
{
    assert forall|wallet: WalletId| #[trigger]
        done.wallet_totals.contains_key(wallet) implies done.wallet_totals[wallet].balances()
        && done.wallet_totals[wallet].wallet_id == wallet by {
        assert(build.wallet_totals.contains_key(wallet));
    }
}

} // verus!
