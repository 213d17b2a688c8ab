//! What the transactions are that wallets are asked for.

use vstd::arithmetic::power2::pow2;
use vstd::prelude::*;

use crate::builder::current::{PayoutTrial, TrialOutcome, WalletBuild};
use crate::builder_model::{foreign_inputs, foreign_psbts, is_payable, sum_payouts, BuilderView};
use crate::primitives::{KeychainId, OutPoint};
use crate::psbt::{ForeignUtxo, Psbt, PsbtInput, SighashType, TxOrdering, TxPayout};

verus! {

/// A wallet is asked to spend all that it has in the drain of a deprecated keychain, and
/// there alone; what is left over goes to the address that was given, and a trial leaves
/// the choice to the wallet.
pub proof fn law_only_drains_empty_wallets(
    builder: BuilderView,
    keychain: KeychainId,
    n: int,
    script: Seq<u8>,
)
    ensures
        builder.drain_plan(keychain, script).drain_wallet,
        !builder.trial_plan(keychain, n).drain_wallet,
        !builder.build_plan(keychain, n, script).drain_wallet,
        builder.drain_plan(keychain, script).drain_to == Some(script),
        builder.trial_plan(keychain, n).drain_to is None,
        builder.build_plan(keychain, n, script).drain_to == Some(script),
{
}

/// Every transaction is asked for at the configured fee rate. Signatures cover all of a
/// transaction that is kept, and only the shared transaction has a fixed order.
pub proof fn law_plans_follow_the_configuration(
    builder: BuilderView,
    keychain: KeychainId,
    n: int,
    script: Seq<u8>,
)
    requires
        builder.fee_rate is Some,
    ensures
        Some(builder.drain_plan(keychain, script).fee_rate) == builder.fee_rate,
        Some(builder.trial_plan(keychain, n).fee_rate) == builder.fee_rate,
        Some(builder.build_plan(keychain, n, script).fee_rate) == builder.fee_rate,
        builder.drain_plan(keychain, script).sighash == Some(SighashType::All),
        builder.trial_plan(keychain, n).sighash is None,
        builder.build_plan(keychain, n, script).sighash == Some(SighashType::All),
        builder.drain_plan(keychain, script).ordering == TxOrdering::Default,
        builder.trial_plan(keychain, n).ordering == TxOrdering::Default,
        builder.build_plan(keychain, n, script).ordering == TxOrdering::Bip69Lexicographic,
{
}

/// An output must not be spent exactly if it is listed as reserved of the visited
/// keychain, in the order of that list.
pub proof fn law_plans_forbid_what_is_reserved(
    builder: BuilderView,
    keychain: KeychainId,
    n: int,
    script: Seq<u8>,
)
    ensures
        builder.drain_plan(keychain, script).unspendable == builder.trial_plan(
            keychain,
            n,
        ).unspendable,
        builder.build_plan(keychain, n, script).unspendable == builder.trial_plan(
            keychain,
            n,
        ).unspendable,
        builder.reserved_utxos is None ==> builder.trial_plan(keychain, n).unspendable.len() == 0,
        builder.reserved_utxos matches Some(reserved) ==> if reserved.contains_key(keychain) {
            builder.trial_plan(keychain, n).unspendable == reserved[keychain]
        } else {
            builder.trial_plan(keychain, n).unspendable.len() == 0
        },
{
}

/// A drain asks for no outputs and no inputs of others.
pub proof fn law_drains_ask_for_nothing_else(
    builder: BuilderView,
    keychain: KeychainId,
    script: Seq<u8>,
)
    ensures
        builder.drain_plan(keychain, script).recipients.len() == 0,
        builder.drain_plan(keychain, script).foreign_utxos.len() == 0,
{
}

/// A trial asks for one output for each of the first `n` payouts, in their order, that
/// pays its amount to its address.
pub proof fn law_trials_ask_for_the_payouts(builder: BuilderView, keychain: KeychainId, n: int)
    requires
        0 <= n <= builder.current_payouts.len(),
        forall|i: int|
            0 <= i < n ==> 0 <= (#[trigger] builder.current_payouts[i]).2@ <= u64::MAX,
    ensures
        builder.trial_plan(keychain, n).recipients.len() == n,
        forall|i: int|
            0 <= i < n ==> {
                let (script, amount) = #[trigger] builder.trial_plan(keychain, n).recipients[i];
                &&& script == builder.current_payouts[i].1.script()
                &&& amount == builder.current_payouts[i].2@
            },
{
}

/// A build asks for the outputs of the trial, then for those of the transaction built
/// before, each with its script and its value, and for no others.
pub proof fn law_builds_ask_for_payouts_and_outputs(
    builder: BuilderView,
    keychain: KeychainId,
    n: int,
    change_script: Seq<u8>,
)
    requires
        0 <= n <= builder.current_payouts.len(),
        forall|i: int|
            0 <= i < n ==> 0 <= (#[trigger] builder.current_payouts[i]).2@ <= u64::MAX,
    ensures
        ({
            let recipients = builder.build_plan(keychain, n, change_script).recipients;
            &&& builder.result.psbt is None ==> recipients.len() == n
            &&& forall|i: int|
                0 <= i < n ==> {
                    let (script, amount) = #[trigger] recipients[i];
                    &&& script == builder.current_payouts[i].1.script()
                    &&& amount == builder.current_payouts[i].2@
                }
            &&& builder.result.psbt matches Some(psbt) ==> {
                &&& recipients.len() == n + psbt.outputs@.len()
                &&& forall|i: int|
                    0 <= i < psbt.outputs@.len() ==> {
                        let (script, amount) = recipients[n + i];
                        &&& script == (#[trigger] psbt.outputs@[i]).script_pubkey@
                        &&& amount == psbt.outputs@[i].value
                    }
            }
        }),
{
}

/// Is `utxo` an input of another wallet for `input`, with the weight that was noted?
pub open spec fn stands_for(
    weights: Map<OutPoint, usize>,
    utxo: ForeignUtxo,
    input: PsbtInput,
) -> bool {
    &&& utxo.outpoint == input.previous_output
    &&& utxo.details == input.details
    &&& utxo.satisfaction_weight == weights[input.previous_output]
}

/// All inputs of the transactions, one transaction after the other.
pub open spec fn inputs_in_order(psbts: Seq<(KeychainId, Psbt)>) -> Seq<PsbtInput> {
    psbts.map_values(|entry: (KeychainId, Psbt)| entry.1.inputs@).flatten()
}

proof fn lemma_foreign_in_order(
    weights: Map<OutPoint, usize>,
    psbts: Seq<(KeychainId, Psbt)>,
    n: nat,
)
    requires
        n <= psbts.len(),
    ensures
        ({
            let all = inputs_in_order(psbts.take(n as int));
            let foreign = foreign_psbts(weights, psbts, n);
            &&& foreign.len() == all.len()
            &&& forall|i: int|
                0 <= i < all.len() ==> stands_for(weights, #[trigger] foreign[i], all[i])
        }),
    decreases n,
{
    let lists = psbts.take(n as int).map_values(|entry: (KeychainId, Psbt)| entry.1.inputs@);
    lists.lemma_flatten_and_flatten_alt_are_equivalent();
    if n > 0 {
        let before = psbts.take(n - 1).map_values(|entry: (KeychainId, Psbt)| entry.1.inputs@);
        before.lemma_flatten_and_flatten_alt_are_equivalent();
        lemma_foreign_in_order(weights, psbts, (n - 1) as nat);
        assert(lists.drop_last() =~= before);
        assert(lists.last() == psbts[n - 1].1.inputs@);
        let all = inputs_in_order(psbts.take(n as int));
        let earlier = inputs_in_order(psbts.take(n - 1));
        assert(all == earlier + psbts[n - 1].1.inputs@);
        let foreign = foreign_psbts(weights, psbts, n);
        let foreign_before = foreign_psbts(weights, psbts, (n - 1) as nat);
        assert forall|i: int| 0 <= i < all.len() implies stands_for(
            weights,
            #[trigger] foreign[i],
            all[i],
        ) by {
            if i < earlier.len() {
                assert(foreign[i] == foreign_before[i]);
            } else {
                let last = foreign_inputs(weights, psbts[n - 1].1.inputs@);
                assert(foreign[i] == last[i - earlier.len()]);
            }
        }
    }
}

/// A trial spends, as inputs of others, all inputs of all transactions of the wallet's
/// deprecated keychains, in their order, and nothing else, whatever was built before.
pub proof fn law_trials_spend_what_was_drained(
    builder: BuilderView,
    keychain: KeychainId,
    n: int,
)
    ensures
        ({
            let drained = inputs_in_order(builder.current_wallet_psbts);
            let foreign = builder.trial_plan(keychain, n).foreign_utxos;
            &&& foreign.len() == drained.len()
            &&& forall|i: int|
                0 <= i < drained.len() ==> stands_for(
                    builder.input_weights,
                    #[trigger] foreign[i],
                    drained[i],
                )
        }),
{
    let psbts = builder.current_wallet_psbts;
    lemma_foreign_in_order(builder.input_weights, psbts, psbts.len());
    assert(psbts.take(psbts.len() as int) =~= psbts);
}

/// An outpoint is an input of others in a trial exactly if a transaction of a deprecated
/// keychain of the wallet spends it.
pub proof fn law_trials_spend_exactly_what_was_drained(
    builder: BuilderView,
    keychain: KeychainId,
    n: int,
    outpoint: OutPoint,
)
    ensures
        (exists|i: int|
            0 <= i < builder.trial_plan(keychain, n).foreign_utxos.len()
                && (#[trigger] builder.trial_plan(keychain, n).foreign_utxos[i]).outpoint
                == outpoint) <==> (exists|a: int, i: int|
            0 <= a < builder.current_wallet_psbts.len() && 0 <= i
                < builder.current_wallet_psbts[a].1.inputs@.len()
                && (#[trigger] builder.current_wallet_psbts[a].1.inputs@[i]).previous_output
                == outpoint),
{
    let psbts = builder.current_wallet_psbts;
    let foreign = builder.trial_plan(keychain, n).foreign_utxos;
    super::inputs::lemma_drained_are_foreign(
        builder.input_weights,
        psbts,
        psbts.len(),
        outpoint,
    );
    assert(foreign == foreign_psbts(builder.input_weights, psbts, psbts.len()));
    if exists|i: int| 0 <= i < foreign.len() && (#[trigger] foreign[i]).outpoint == outpoint {
        let a = choose|a: int|
            0 <= a < psbts.len() && super::inputs::is_spent(
                (#[trigger] psbts[a]).1.inputs@,
                psbts[a].1.inputs@.len() as int,
                outpoint,
            );
        let inputs = psbts[a].1.inputs@;
        let i = choose|i: int|
            0 <= i < inputs.len() && (#[trigger] inputs[i]).previous_output == outpoint;
        assert(psbts[a].1.inputs@[i].previous_output == outpoint);
    }
    if exists|a: int, i: int|
        0 <= a < psbts.len() && 0 <= i < psbts[a].1.inputs@.len()
            && (#[trigger] psbts[a].1.inputs@[i]).previous_output == outpoint {
        let (a, i) = choose|a: int, i: int|
            0 <= a < psbts.len() && 0 <= i < psbts[a].1.inputs@.len()
                && (#[trigger] psbts[a].1.inputs@[i]).previous_output == outpoint;
        assert(super::inputs::is_spent(
            psbts[a].1.inputs@,
            psbts[a].1.inputs@.len() as int,
            outpoint,
        ));
        assert(super::inputs::is_spent_by_psbts(psbts, psbts.len() as int, outpoint));
    }
}

/// A build spends, as inputs of others, what the trial spends, then all inputs of the
/// transaction built before, and nothing else.
pub proof fn law_builds_spend_what_was_built(
    builder: BuilderView,
    keychain: KeychainId,
    n: int,
    change_script: Seq<u8>,
)
    ensures
        ({
            let drained = inputs_in_order(builder.current_wallet_psbts);
            let foreign = builder.build_plan(keychain, n, change_script).foreign_utxos;
            &&& forall|i: int|
                0 <= i < drained.len() ==> stands_for(
                    builder.input_weights,
                    #[trigger] foreign[i],
                    drained[i],
                )
            &&& builder.result.psbt is None ==> foreign.len() == drained.len()
            &&& builder.result.psbt matches Some(psbt) ==> {
                &&& foreign.len() == drained.len() + psbt.inputs@.len()
                &&& forall|i: int|
                    0 <= i < psbt.inputs@.len() ==> stands_for(
                        builder.input_weights,
                        foreign[drained.len() + i],
                        #[trigger] psbt.inputs@[i],
                    )
            }
        }),
{
    let psbts = builder.current_wallet_psbts;
    lemma_foreign_in_order(builder.input_weights, psbts, psbts.len());
    assert(psbts.take(psbts.len() as int) =~= psbts);
    let drained = foreign_psbts(builder.input_weights, psbts, psbts.len());
    let foreign = builder.build_plan(keychain, n, change_script).foreign_utxos;
    assert forall|i: int| 0 <= i < drained.len() implies #[trigger] foreign[i] == drained[i] by {}
}

/// A payout can be made exactly if its amount is one that an output can have: 64 bits
/// hold it.
pub proof fn law_payable_amounts(payout: TxPayout)
    ensures
        is_payable(payout) <==> 0 <= payout.2@ < pow2(64),
{
    vstd::arithmetic::power2::lemma2_to64();
}

/// What payouts come to is the sum of their amounts.
pub proof fn law_payouts_sum_up(payouts: Seq<TxPayout>, n: nat)
    requires
        n <= payouts.len(),
    ensures
        sum_payouts(payouts, n) == payouts.take(n as int).fold_left(
            0int,
            |sum: int, payout: TxPayout| sum + payout.2@,
        ),
    decreases n,
{
    reveal_with_fuel(Seq::fold_left, 2);
    if n > 0 {
        law_payouts_sum_up(payouts, (n - 1) as nat);
        assert(payouts.take(n as int).drop_last() =~= payouts.take(n - 1));
        assert(payouts.take(n as int).last() == payouts[n - 1]);
    }
}

/// A trial that a visit asks for tries one payout more than is known to be paid, out of
/// those that the wallet has.
pub proof fn law_trials_try_one_more(trial: PayoutTrial)
    requires
        trial.well_formed(),
    ensures
        trial.max_payout < trial.builder@.current_payouts.len(),
        trial.plan@.recipients.len() == trial.max_payout + 1,
        forall|i: int|
            0 <= i <= trial.max_payout ==> {
                let (script, amount) = #[trigger] trial.plan@.recipients[i];
                &&& script == trial.builder@.current_payouts[i].1.script()
                &&& amount == trial.builder@.current_payouts[i].2@
            },
        !trial.plan@.drain_wallet,
        trial.plan@.drain_to is None,
        Some(trial.plan@.fee_rate) == trial.builder@.fee_rate,
{
    let builder = trial.builder@;
    let n = trial.max_payout + 1;
    assert forall|i: int| 0 <= i < n implies 0 <= (#[trigger] builder.current_payouts[i]).2@
        <= u64::MAX by {
        assert(is_payable(builder.current_payouts[i]));
    }
    law_trials_ask_for_the_payouts(builder, trial.keychain_id, n);
    assert forall|i: int| 0 <= i <= trial.max_payout implies {
        let (script, amount) = #[trigger] trial.plan@.recipients[i];
        &&& script == builder.current_payouts[i].1.script()
        &&& amount == builder.current_payouts[i].2@
    } by {
        assert(trial.plan@.recipients[i] == builder.trial_plan(
            trial.keychain_id,
            n,
        ).recipients[i]);
    }
}

/// One more trial follows exactly if the last one was built and there is another payout;
/// otherwise the payouts of all trials that were built are made.
pub proof fn law_trials_end_with_the_first_failure(trial: PayoutTrial, outcome: TrialOutcome)
    requires
        trial.well_formed(),
    ensures
        trial.continues_after(outcome) <==> outcome is Built && trial.max_payout + 2
            <= trial.builder@.current_payouts.len(),
        outcome is Built ==> trial.payouts_after(outcome) == trial.max_payout + 1,
        !(outcome is Built) ==> trial.payouts_after(outcome) == trial.max_payout,
{
}

/// The build that follows the trials has the first `n` payouts and what was built before,
/// is paid for by the visited keychain, and brings its change to the given address.
pub proof fn law_builds_make_the_chosen_payouts(trial: PayoutTrial, n: int, build: WalletBuild)
    requires
        trial.builds(n, build),
        0 <= n <= trial.builder@.current_payouts.len(),
        forall|i: int|
            0 <= i < n ==> 0 <= (#[trigger] trial.builder@.current_payouts[i]).2@ <= u64::MAX,
    ensures
        build.keychain_id == trial.keychain_id,
        build.satisfaction_weight == trial.satisfaction_weight,
        build.change_address == trial.change_address,
        build.output_satoshis@ == trial.builder@.current_payouts.take(n).fold_left(
            0int,
            |sum: int, payout: TxPayout| sum + payout.2@,
        ),
        !build.plan@.drain_wallet,
        build.plan@.drain_to == Some(trial.change_address.address.script()),
        build.plan@.ordering == TxOrdering::Bip69Lexicographic,
        build.plan@.sighash == Some(SighashType::All),
        build.plan@.recipients.len() == n + match trial.builder@.result.psbt {
            Some(psbt) => psbt.outputs@.len() as int,
            None => 0,
        },
        forall|i: int|
            0 <= i < n ==> {
                let (script, amount) = #[trigger] build.plan@.recipients[i];
                &&& script == trial.builder@.current_payouts[i].1.script()
                &&& amount == trial.builder@.current_payouts[i].2@
            },
        build.builder@.current_payouts == trial.builder@.current_payouts.skip(n),
        build.builder@.current_wallet == trial.builder@.current_wallet,
{
    law_payouts_sum_up(trial.builder@.current_payouts, n as nat);
    law_builds_ask_for_payouts_and_outputs(
        trial.builder@,
        trial.keychain_id,
        n,
        trial.change_address.address.script(),
    );
}

} // verus!
