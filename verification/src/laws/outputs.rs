//! What holds of the outputs of a finished build.

use vstd::prelude::*;

use crate::builder_model::BuilderView;
use crate::finished::{change_vout, change_vouts, is_change_vout, FinishedView};
use crate::finished::WalletTotalsView;
use crate::placement::{find_output, lemma_find_output, lemma_placed_apart, lists_once, pays};
use crate::placement::{payout_sats, payout_script, place_all, place_list};
use crate::primitives::{KeychainId, WalletId};
use crate::psbt::{TxOut, TxPayout};

verus! {

/// Is `i` the place of a payout of `wallet` in the finished build?
pub open spec fn is_payout(done: FinishedView, wallet: WalletId, i: int) -> bool {
    done.included_payouts.contains_key(wallet) && 0 <= i < done.included_payouts[wallet].len()
}

/// The number of the output that a payout has in the finished build.
pub open spec fn payout_vout(done: FinishedView, wallet: WalletId, i: int) -> u32 {
    done.included_payouts[wallet][i].1
}

/// In a finished build the payouts are those that there were, each has an output
/// that pays it, no two have the same output, and none has one that brings a wallet
/// its change.
pub proof fn law_payouts_have_their_outputs(build: FinishedView, done: FinishedView)
    requires
        build.has_transaction(),
        build.outputs().len() <= u32::MAX,
        build.finishes_to(done),
    ensures
        done.included_payouts.dom() == build.included_payouts.dom(),
        forall|wallet: WalletId| #[trigger]
            done.included_payouts.contains_key(wallet) ==> done.included_payouts[wallet].len()
                == build.included_payouts[wallet].len(),
        forall|wallet: WalletId, i: int| #[trigger]
            is_payout(done, wallet, i) ==> {
                &&& done.included_payouts[wallet][i].0 == build.included_payouts[wallet][i].0
                &&& payout_vout(done, wallet, i) < done.outputs().len()
                &&& pays(
                    done.outputs()[payout_vout(done, wallet, i) as int],
                    payout_script(done.included_payouts[wallet][i]),
                    payout_sats(done.included_payouts[wallet][i]),
                )
                &&& !is_change_vout(
                    done.outputs(),
                    build.wallet_totals,
                    payout_vout(done, wallet, i) as usize,
                )
            },
        forall|w1: WalletId, i1: int, w2: WalletId, i2: int| #[trigger]
            is_payout(done, w1, i1) && #[trigger] is_payout(done, w2, i2) && (w1 != w2 || i1 != i2)
                ==> payout_vout(done, w1, i1) != payout_vout(done, w2, i2),
{
    let order = choose|order: Seq<WalletId>| #[trigger] build.vouts_noted(order, done);
    let outputs = build.outputs();
    let taken = change_vouts(outputs, build.wallet_totals);
    lemma_placed_apart(outputs, build.included_payouts, order, taken);
    let (placed, now_taken) = place_all(
        outputs,
        build.included_payouts,
        order,
        order.len(),
        taken,
    )->0;
    assert forall|wallet: WalletId, i: int| #[trigger] is_payout(done, wallet, i) implies {
        &&& done.included_payouts[wallet][i].0 == build.included_payouts[wallet][i].0
        &&& payout_vout(done, wallet, i) == placed[wallet][i]
        &&& 0 <= i < placed[wallet].len()
        &&& placed.contains_key(wallet)
        &&& payout_vout(done, wallet, i) < outputs.len()
        &&& !taken.contains(payout_vout(done, wallet, i) as usize)
        &&& pays(
            outputs[payout_vout(done, wallet, i) as int],
            payout_script(done.included_payouts[wallet][i]),
            payout_sats(done.included_payouts[wallet][i]),
        )
    } by {
        assert(build.included_payouts.contains_key(wallet));
        assert(placed.contains_key(wallet));
        assert(placed[wallet][i] < outputs.len());
    }
}

/// In a finished build the change of each wallet that has some is the first output
/// that pays it; what the totals of a wallet without change say stays as it was.
pub proof fn law_change_is_noted(build: FinishedView, done: FinishedView, wallet: WalletId)
    requires
        build.has_transaction(),
        build.outputs().len() <= u32::MAX,
        build.outputs_accounted_for(),
        build.finishes_to(done),
        build.wallet_totals.contains_key(wallet),
    ensures
        ({
            let total = done.wallet_totals[wallet];
            if total.change_satoshis == 0 {
                total.change_outpoint == build.wallet_totals[wallet].change_outpoint
            } else {
                &&& total.change_outpoint matches Some(outpoint)
                &&& outpoint.txid == done.tx_id->0
                &&& outpoint.vout < done.outputs().len()
                &&& pays(
                    done.outputs()[outpoint.vout as int],
                    total.change_address.address.script(),
                    total.change_satoshis,
                )
                &&& forall|j: int|
                    0 <= j < outpoint.vout ==> !pays(
                        #[trigger] done.outputs()[j],
                        total.change_address.address.script(),
                        total.change_satoshis,
                    )
            }
        }),
{
    let total = build.wallet_totals[wallet];
    let script = total.change_address.address.script();
    lemma_find_output(build.outputs(), Set::empty(), script, total.change_satoshis, 0);
    if total.change_satoshis != 0 {
        let vout = change_vout(build.outputs(), total)->0;
        assert forall|j: int| 0 <= j < vout implies !pays(
            #[trigger] done.outputs()[j],
            script,
            total.change_satoshis,
        ) by {
            assert(!Set::<usize>::empty().contains(j as usize));
        }
    }
}

/// In a finished build the signers of a wallet whose totals named none are exactly
/// the keychains that the transaction spends from, each once.
pub proof fn law_signers_are_noted(build: FinishedView, done: FinishedView, wallet: WalletId)
    requires
        build.finishes_to(done),
        build.wallet_totals.contains_key(wallet),
        build.wallet_totals[wallet].keychains_with_inputs.len() == 0,
    ensures
        lists_once(
            done.wallet_totals[wallet].keychains_with_inputs,
            if build.included_utxos.contains_key(wallet) {
                build.included_utxos[wallet].dom()
            } else {
                Set::empty()
            },
        ),
{
    let before = build.total_with_change(wallet);
    let now = done.wallet_totals[wallet];
    if build.included_utxos.contains_key(wallet) {
        let signers = choose|signers: Seq<KeychainId>| #[trigger]
            lists_once(signers, build.included_utxos[wallet].dom()) && now == (WalletTotalsView {
                keychains_with_inputs: before.keychains_with_inputs + signers,
                ..before
            });
        assert(now.keychains_with_inputs =~= signers);
    } else {
        assert(now.keychains_with_inputs.to_set() =~= Set::empty());
    }
}

/// Does the output `vout` pay one of the listed payouts?
pub open spec fn serves(outputs: Seq<TxOut>, list: Seq<(TxPayout, u32)>, vout: usize) -> bool {
    vout < outputs.len() && exists|i: int|
        0 <= i < list.len() && pays(
            outputs[vout as int],
            payout_script(#[trigger] list[i]),
            payout_sats(list[i]),
        )
}

/// Do the two sets hold the same of the outputs that pay one of the listed payouts?
pub open spec fn agree_on(
    outputs: Seq<TxOut>,
    list: Seq<(TxPayout, u32)>,
    taken: Set<usize>,
    other: Set<usize>,
) -> bool {
    forall|vout: usize| #[trigger]
        serves(outputs, list, vout) ==> (taken.contains(vout) <==> other.contains(vout))
}

/// Is there no payout that another wallet makes as well, to the same script and of the
/// same amount?
pub open spec fn wallets_differ(lists: Map<WalletId, Seq<(TxPayout, u32)>>) -> bool {
    forall|w1: WalletId, i1: int, w2: WalletId, i2: int|
        lists.contains_key(w1) && lists.contains_key(w2) && w1 != w2 && 0 <= i1 < lists[w1].len()
            && 0 <= i2 < lists[w2].len() ==> payout_script(#[trigger] lists[w1][i1])
            != payout_script(#[trigger] lists[w2][i2]) || payout_sats(lists[w1][i1])
            != payout_sats(lists[w2][i2])
}

/// Which output is found depends only on which of those that would do are taken.
proof fn lemma_same_output_found(
    outputs: Seq<TxOut>,
    list: Seq<(TxPayout, u32)>,
    i: int,
    taken: Set<usize>,
    other: Set<usize>,
    start: int,
)
    requires
        outputs.len() <= usize::MAX,
        0 <= i < list.len(),
        0 <= start,
        agree_on(outputs, list, taken, other),
    ensures
        find_output(outputs, taken, payout_script(list[i]), payout_sats(list[i]), start)
            == find_output(outputs, other, payout_script(list[i]), payout_sats(list[i]), start),
    decreases outputs.len() - start,
{
    if start < outputs.len() {
        if pays(outputs[start], payout_script(list[i]), payout_sats(list[i])) {
            assert(serves(outputs, list, start as usize));
        }
        lemma_same_output_found(outputs, list, i, taken, other, start + 1);
    }
}

/// Which outputs a list gets depends only on which of those that would do are taken.
proof fn lemma_same_outputs_placed(
    outputs: Seq<TxOut>,
    list: Seq<(TxPayout, u32)>,
    n: nat,
    taken: Set<usize>,
    other: Set<usize>,
)
    requires
        outputs.len() <= usize::MAX,
        n <= list.len(),
        agree_on(outputs, list, taken, other),
    ensures
        match (place_list(outputs, list, n, taken), place_list(outputs, list, n, other)) {
            (Some((vouts1, taken1)), Some((vouts2, taken2))) => vouts1 == vouts2 && agree_on(
                outputs,
                list,
                taken1,
                taken2,
            ),
            (None, None) => true,
            _ => false,
        },
    decreases n,
{
    if n > 0 {
        lemma_same_outputs_placed(outputs, list, (n - 1) as nat, taken, other);
        if let (Some((vouts1, taken1)), Some((vouts2, taken2))) = (
            place_list(outputs, list, (n - 1) as nat, taken),
            place_list(outputs, list, (n - 1) as nat, other),
        ) {
            lemma_same_output_found(outputs, list, n - 1, taken1, taken2, 0);
        }
    }
}

/// A list takes no output but those that pay one of its payouts.
proof fn lemma_list_takes(
    outputs: Seq<TxOut>,
    list: Seq<(TxPayout, u32)>,
    n: nat,
    taken: Set<usize>,
    vout: usize,
)
    requires
        outputs.len() <= usize::MAX,
        n <= list.len(),
    ensures
        place_list(outputs, list, n, taken) matches Some((vouts, now)) ==> (now.contains(vout)
            ==> taken.contains(vout) || serves(outputs, list, vout)),
    decreases n,
{
    if n > 0 {
        lemma_list_takes(outputs, list, (n - 1) as nat, taken, vout);
        if let Some((vouts, now)) = place_list(outputs, list, (n - 1) as nat, taken) {
            lemma_find_output(
                outputs,
                now,
                payout_script(list[n - 1]),
                payout_sats(list[n - 1]),
                0,
            );
        }
    }
}

/// Where the wallets differ in their payouts, each gets the outputs that it would get
/// if it were the only one, whatever the order.
proof fn lemma_order_does_not_matter(
    outputs: Seq<TxOut>,
    lists: Map<WalletId, Seq<(TxPayout, u32)>>,
    order: Seq<WalletId>,
    n: nat,
    taken: Set<usize>,
)
    requires
        outputs.len() <= usize::MAX,
        wallets_differ(lists),
        lists_once(order, lists.dom()),
        n <= order.len(),
    ensures
        place_all(outputs, lists, order, n, taken) matches Some((placed, now)) ==> {
            &&& forall|k: int|
                0 <= k < n ==> {
                    let list = lists[#[trigger] order[k]];
                    &&& place_list(outputs, list, list.len(), taken) matches Some((vouts, _))
                    &&& placed[order[k]] == vouts
                }
            &&& forall|vout: usize| #[trigger]
                now.contains(vout) && !taken.contains(vout) ==> exists|k: int|
                    0 <= k < n && serves(outputs, lists[#[trigger] order[k]], vout)
        },
    decreases n,
{
    if n > 0 {
        lemma_order_does_not_matter(outputs, lists, order, (n - 1) as nat, taken);
        if let Some((placed, now)) = place_all(outputs, lists, order, (n - 1) as nat, taken) {
            let wallet = order[n - 1];
            let list = lists[wallet];
            assert(order.to_set().contains(wallet));
            assert forall|vout: usize| #[trigger] serves(outputs, list, vout) implies (
            now.contains(vout) <==> taken.contains(vout)) by {
                lemma_all_keep_taken(outputs, lists, order, (n - 1) as nat, taken, vout);
                if now.contains(vout) && !taken.contains(vout) {
                    let k = choose|k: int|
                        0 <= k < n - 1 && serves(outputs, lists[#[trigger] order[k]], vout);
                    let earlier = order[k];
                    assert(order.to_set().contains(earlier));
                    assert(earlier != wallet);
                    let i = choose|i: int|
                        0 <= i < list.len() && pays(
                            outputs[vout as int],
                            payout_script(#[trigger] list[i]),
                            payout_sats(list[i]),
                        );
                    let j = choose|j: int|
                        0 <= j < lists[earlier].len() && pays(
                            outputs[vout as int],
                            payout_script(#[trigger] lists[earlier][j]),
                            payout_sats(lists[earlier][j]),
                        );
                    assert(payout_script(lists[wallet][i]) == payout_script(lists[earlier][j]));
                    assert(false);
                }
            }
            lemma_same_outputs_placed(outputs, list, list.len(), now, taken);
            if let Some((vouts, then)) = place_list(outputs, list, list.len(), now) {
                assert forall|vout: usize| #[trigger]
                    then.contains(vout) && !taken.contains(vout) implies exists|k: int|
                    0 <= k < n && serves(outputs, lists[#[trigger] order[k]], vout) by {
                    lemma_list_takes(outputs, list, list.len(), now, vout);
                    if now.contains(vout) {
                        let k = choose|k: int|
                            0 <= k < n - 1 && serves(outputs, lists[#[trigger] order[k]], vout);
                        assert(serves(outputs, lists[order[k]], vout));
                    } else {
                        assert(serves(outputs, lists[order[n - 1]], vout));
                    }
                }
                assert forall|k: int| 0 <= k < n - 1 implies #[trigger] order[k] != wallet by {}
            }
        }
    }
}

/// What is taken stays taken.
proof fn lemma_all_keep_taken(
    outputs: Seq<TxOut>,
    lists: Map<WalletId, Seq<(TxPayout, u32)>>,
    order: Seq<WalletId>,
    n: nat,
    taken: Set<usize>,
    vout: usize,
)
    ensures
        place_all(outputs, lists, order, n, taken) matches Some((placed, now)) ==> (taken.contains(
            vout,
        ) ==> now.contains(vout)),
    decreases n,
{
    if n > 0 {
        lemma_all_keep_taken(outputs, lists, order, (n - 1) as nat, taken, vout);
        if let Some((placed, now)) = place_all(outputs, lists, order, (n - 1) as nat, taken) {
            let list = lists[order[n - 1]];
            lemma_list_keeps_taken(outputs, list, list.len(), now, vout);
        }
    }
}

proof fn lemma_list_keeps_taken(
    outputs: Seq<TxOut>,
    list: Seq<(TxPayout, u32)>,
    n: nat,
    taken: Set<usize>,
    vout: usize,
)
    ensures
        place_list(outputs, list, n, taken) matches Some((vouts, now)) ==> (taken.contains(vout)
            ==> now.contains(vout)),
    decreases n,
{
    if n > 0 {
        lemma_list_keeps_taken(outputs, list, (n - 1) as nat, taken, vout);
    }
}

/// Do the totals say the same, up to the order of the signers?
pub open spec fn same_totals(total: WalletTotalsView, other: WalletTotalsView) -> bool {
    &&& total.keychains_with_inputs.len() == other.keychains_with_inputs.len()
    &&& total.keychains_with_inputs.to_set() == other.keychains_with_inputs.to_set()
    &&& total == (WalletTotalsView {
        keychains_with_inputs: total.keychains_with_inputs,
        ..other
    })
}

/// The current wallet and the payouts that it has left do not matter to a finished
/// build: what the build comes to is the same before and after the next wallet is
/// waited for.
pub proof fn law_leftovers_do_not_matter(builder: BuilderView, done: FinishedView)
    ensures
        builder.result.finishes_to(done) <==> builder.between_wallets().result.finishes_to(done),
{
}

/// Finishing a build twice comes to the same, up to the order of the signers. Where
/// two wallets make the same payment, which of them has which of its outputs is not
/// settled; all else is.
pub proof fn law_finished_builds_agree(
    build: FinishedView,
    done: FinishedView,
    other: FinishedView,
)
    requires
        build.outputs().len() <= usize::MAX,
        build.finishes_to(done),
        build.finishes_to(other),
    ensures
        done.included_utxos == other.included_utxos,
        done.included_wallet_keychains == other.included_wallet_keychains,
        done.fee_satoshis == other.fee_satoshis,
        done.tx_id == other.tx_id,
        done.psbt == other.psbt,
        done.wallet_totals.dom() == other.wallet_totals.dom(),
        forall|wallet: WalletId| #[trigger]
            done.wallet_totals.contains_key(wallet) ==> same_totals(
                done.wallet_totals[wallet],
                other.wallet_totals[wallet],
            ),
        done.included_payouts.dom() == other.included_payouts.dom(),
        forall|wallet: WalletId, i: int| #[trigger]
            is_payout(done, wallet, i) ==> is_payout(other, wallet, i)
                && done.included_payouts[wallet][i].0 == other.included_payouts[wallet][i].0,
        wallets_differ(build.included_payouts) ==> done.included_payouts
            == other.included_payouts,
{
    assert forall|wallet: WalletId| #[trigger]
        done.wallet_totals.contains_key(wallet) implies same_totals(
        done.wallet_totals[wallet],
        other.wallet_totals[wallet],
    ) by {
        assert(build.wallet_totals.contains_key(wallet));
        if build.included_utxos.contains_key(wallet) {
            let before = build.total_with_change(wallet).keychains_with_inputs;
            let members = build.included_utxos[wallet].dom();
            let s1 = lemma_signers(build, done, wallet);
            let s2 = lemma_signers(build, other, wallet);
            s1.unique_seq_to_set();
            s2.unique_seq_to_set();
            vstd::seq_lib::seq_to_set_distributes_over_add(before, s1);
            vstd::seq_lib::seq_to_set_distributes_over_add(before, s2);
        }
    }
    if build.has_transaction() {
        let o1 = choose|order: Seq<WalletId>| #[trigger] build.vouts_noted(order, done);
        let o2 = choose|order: Seq<WalletId>| #[trigger] build.vouts_noted(order, other);
        let outputs = build.outputs();
        let lists = build.included_payouts;
        let taken = change_vouts(outputs, build.wallet_totals);
        assert forall|wallet: WalletId, i: int| #[trigger] is_payout(done, wallet, i) implies
            is_payout(other, wallet, i) && done.included_payouts[wallet][i].0
            == other.included_payouts[wallet][i].0 by {
            assert(lists.contains_key(wallet));
        }
        if wallets_differ(lists) {
            lemma_order_does_not_matter(outputs, lists, o1, o1.len(), taken);
            lemma_order_does_not_matter(outputs, lists, o2, o2.len(), taken);
            assert forall|wallet: WalletId| #[trigger]
                done.included_payouts.contains_key(wallet) implies done.included_payouts[wallet]
                == other.included_payouts[wallet] by {
                assert(lists.contains_key(wallet));
                assert(o1.to_set().contains(wallet));
                assert(o2.to_set().contains(wallet));
                let k1 = choose|k: int| 0 <= k < o1.len() && o1[k] == wallet;
                let k2 = choose|k: int| 0 <= k < o2.len() && o2[k] == wallet;
                assert(lists[o1[k1]] == lists[o2[k2]]);
            }
            assert(done.included_payouts =~= other.included_payouts);
        }
    }
}

/// The signers that finishing a build notes for a wallet.
proof fn lemma_signers(build: FinishedView, done: FinishedView, wallet: WalletId) -> (signers: Seq<
    KeychainId,
>)
    requires
        build.finishes_to(done),
        build.wallet_totals.contains_key(wallet),
        build.included_utxos.contains_key(wallet),
    ensures
        lists_once(signers, build.included_utxos[wallet].dom()),
        done.wallet_totals[wallet] == (WalletTotalsView {
            keychains_with_inputs: build.total_with_change(wallet).keychains_with_inputs + signers,
            ..build.total_with_change(wallet)
        }),
{
    let before = build.total_with_change(wallet);
    choose|signers: Seq<KeychainId>| #[trigger]
        lists_once(signers, build.included_utxos[wallet].dom()) && done.wallet_totals[wallet] == (
        WalletTotalsView {
            keychains_with_inputs: before.keychains_with_inputs + signers,
            ..before
        })
}

} // verus!
