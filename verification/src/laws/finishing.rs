//! What a finished build says, output by output and wallet by wallet.

use std::collections::{HashMap, HashSet};

use vstd::prelude::*;

use super::outputs::{is_payout, law_change_is_noted, law_payouts_have_their_outputs, payout_vout};
use crate::finished::{change_vout, change_vouts, is_change_vout, FinishedView, WalletTotalsView};
use crate::placement::{all_slots, find_output, is_placement, lemma_find_output};
use crate::placement::{lemma_placed_apart, lists_once, lists_view, pays, payout_sats};
use crate::placement::{payout_script, place_all, place_list, place_payouts, Slot};
use crate::primitives::{KeychainId, WalletId};
use crate::psbt::{TxOut, TxPayout};

verus! {

/// Finishing a build changes neither the transaction nor what it spends, no amount and no
/// address: only the output of the change and the signers are noted with the totals, and
/// the outputs with the payouts.
pub proof fn law_finishing_keeps_the_rest(build: FinishedView, done: FinishedView)
    requires
        build.finishes_to(done),
    ensures
        done.included_utxos == build.included_utxos,
        done.included_wallet_keychains == build.included_wallet_keychains,
        done.fee_satoshis == build.fee_satoshis,
        done.tx_id == build.tx_id,
        done.psbt == build.psbt,
        done.wallet_totals.dom() == build.wallet_totals.dom(),
        forall|wallet: WalletId| #[trigger]
            build.wallet_totals.contains_key(wallet) ==> {
                let before = build.wallet_totals[wallet];
                let now = done.wallet_totals[wallet];
                &&& now.wallet_id == before.wallet_id
                &&& now.change_keychain_id == before.change_keychain_id
                &&& now.input_satoshis == before.input_satoshis
                &&& now.output_satoshis == before.output_satoshis
                &&& now.fee_satoshis == before.fee_satoshis
                &&& now.change_satoshis == before.change_satoshis
                &&& now.change_address == before.change_address
            },
        build.psbt is None || build.tx_id is None ==> {
            &&& done.included_payouts == build.included_payouts
            &&& forall|wallet: WalletId| #[trigger]
                build.wallet_totals.contains_key(wallet)
                    ==> done.wallet_totals[wallet].change_outpoint
                    == build.wallet_totals[wallet].change_outpoint
        },
{
    assert forall|wallet: WalletId| #[trigger] build.wallet_totals.contains_key(wallet) implies {
        let before = build.wallet_totals[wallet];
        let now = done.wallet_totals[wallet];
        &&& now.wallet_id == before.wallet_id
        &&& now.change_keychain_id == before.change_keychain_id
        &&& now.input_satoshis == before.input_satoshis
        &&& now.output_satoshis == before.output_satoshis
        &&& now.fee_satoshis == before.fee_satoshis
        &&& now.change_satoshis == before.change_satoshis
        &&& now.change_address == before.change_address
    } by {}
}

/// The signers of a wallet are those that were noted, and behind them every keychain that
/// the transaction spends from for the wallet, once.
pub proof fn law_finished_signers(build: FinishedView, done: FinishedView, wallet: WalletId)
    requires
        build.finishes_to(done),
        build.wallet_totals.contains_key(wallet),
    ensures
        ({
            let before = build.wallet_totals[wallet].keychains_with_inputs;
            let now = done.wallet_totals[wallet].keychains_with_inputs;
            &&& before.len() <= now.len()
            &&& now.take(before.len() as int) == before
            &&& !build.included_utxos.contains_key(wallet) ==> now == before
            &&& build.included_utxos.contains_key(wallet) ==> {
                &&& forall|i: int, j: int|
                    before.len() <= i < j < now.len() ==> #[trigger] now[i] != #[trigger] now[j]
                &&& forall|i: int|
                    before.len() <= i < now.len() ==> build.included_utxos[wallet].contains_key(
                        #[trigger] now[i],
                    )
                &&& forall|k: KeychainId| #[trigger]
                    build.included_utxos[wallet].contains_key(k) ==> now.skip(
                        before.len() as int,
                    ).contains(k)
            }
        }),
{
    let total = build.total_with_change(wallet);
    let before = build.wallet_totals[wallet].keychains_with_inputs;
    let now = done.wallet_totals[wallet].keychains_with_inputs;
    assert(total.keychains_with_inputs == before);
    if build.included_utxos.contains_key(wallet) {
        let spent = build.included_utxos[wallet];
        let signers = choose|signers: Seq<KeychainId>| #[trigger]
            lists_once(signers, spent.dom()) && done.wallet_totals[wallet] == (WalletTotalsView {
                keychains_with_inputs: total.keychains_with_inputs + signers,
                ..total
            });
        assert(now == before + signers);
        assert(now.take(before.len() as int) =~= before);
        assert(now.skip(before.len() as int) =~= signers);
        assert forall|i: int, j: int| before.len() <= i < j < now.len() implies #[trigger] now[i]
            != #[trigger] now[j] by {
            assert(now[i] == signers[i - before.len()]);
            assert(now[j] == signers[j - before.len()]);
        }
        assert forall|i: int| before.len() <= i < now.len() implies spent.contains_key(
            #[trigger] now[i],
        ) by {
            assert(signers.to_set().contains(signers[i - before.len()]));
        }
        assert forall|k: KeychainId| #[trigger] spent.contains_key(k) implies now.skip(
            before.len() as int,
        ).contains(k) by {
            assert(signers.to_set().contains(k));
        }
    } else {
        assert(now.take(before.len() as int) =~= before);
    }
}

/// The change of a wallet that has some is the first output with the script of its change
/// address and the value of its change; the change of a wallet without any is left alone.
pub proof fn law_finished_change(build: FinishedView, done: FinishedView, wallet: WalletId)
    requires
        build.tx_id is Some,
        build.psbt is Some,
        build.psbt->0.outputs@.len() <= u32::MAX,
        build.outputs_accounted_for(),
        build.finishes_to(done),
        build.wallet_totals.contains_key(wallet),
    ensures
        ({
            let before = build.wallet_totals[wallet];
            let now = done.wallet_totals[wallet];
            let outputs = build.psbt->0.outputs@;
            let script = before.change_address.address.script();
            if before.change_satoshis == 0 {
                now.change_outpoint == before.change_outpoint
            } else {
                &&& now.change_outpoint is Some
                &&& Some(now.change_outpoint->0.txid) == build.tx_id
                &&& now.change_outpoint->0.vout < outputs.len()
                &&& outputs[now.change_outpoint->0.vout as int].script_pubkey@ == script
                &&& outputs[now.change_outpoint->0.vout as int].value == before.change_satoshis
                &&& forall|j: int|
                    0 <= j < now.change_outpoint->0.vout && (
                    #[trigger] outputs[j]).script_pubkey@ == script ==> outputs[j].value
                        != before.change_satoshis
            }
        }),
{
    law_change_is_noted(build, done, wallet);
    let before = build.wallet_totals[wallet];
    let outputs = build.psbt->0.outputs@;
    let script = before.change_address.address.script();
    if before.change_satoshis != 0 {
        let vout = done.wallet_totals[wallet].change_outpoint->0.vout;
        assert forall|j: int| 0 <= j < vout && (#[trigger] outputs[j]).script_pubkey@ == script
            implies outputs[j].value != before.change_satoshis by {
            assert(!pays(done.outputs()[j], script, before.change_satoshis));
        }
    }
}

/// Every payout of the build is in the finished one, at its place, with an output that has
/// the script of its address and its amount as value.
pub proof fn law_finished_payouts(
    build: FinishedView,
    done: FinishedView,
    wallet: WalletId,
    i: int,
)
    requires
        build.tx_id is Some,
        build.psbt is Some,
        build.psbt->0.outputs@.len() <= u32::MAX,
        build.finishes_to(done),
        build.included_payouts.contains_key(wallet),
        0 <= i < build.included_payouts[wallet].len(),
    ensures
        done.included_payouts.dom() == build.included_payouts.dom(),
        done.included_payouts[wallet].len() == build.included_payouts[wallet].len(),
        ({
            let (payout, vout) = done.included_payouts[wallet][i];
            let outputs = build.psbt->0.outputs@;
            &&& payout == build.included_payouts[wallet][i].0
            &&& vout < outputs.len()
            &&& outputs[vout as int].script_pubkey@ == payout.1.script()
            &&& outputs[vout as int].value == payout.2@
        }),
{
    law_payouts_have_their_outputs(build, done);
    assert(done.included_payouts.dom().contains(wallet));
    assert(done.included_payouts.contains_key(wallet));
    assert(is_payout(done, wallet, i));
}

/// No two payouts have the same output.
pub proof fn law_finished_payouts_differ(
    build: FinishedView,
    done: FinishedView,
    w1: WalletId,
    i1: int,
    w2: WalletId,
    i2: int,
)
    requires
        build.tx_id is Some,
        build.psbt is Some,
        build.psbt->0.outputs@.len() <= u32::MAX,
        build.finishes_to(done),
        build.included_payouts.contains_key(w1),
        0 <= i1 < build.included_payouts[w1].len(),
        build.included_payouts.contains_key(w2),
        0 <= i2 < build.included_payouts[w2].len(),
        w1 != w2 || i1 != i2,
    ensures
        done.included_payouts[w1][i1].1 != done.included_payouts[w2][i2].1,
{
    law_payouts_have_their_outputs(build, done);
    assert(done.included_payouts.dom().contains(w1) && done.included_payouts.dom().contains(w2));
    assert(done.included_payouts.contains_key(w1) && done.included_payouts.contains_key(w2));
    assert(is_payout(done, w1, i1) && is_payout(done, w2, i2));
    assert(payout_vout(done, w1, i1) != payout_vout(done, w2, i2));
}

/// No payout has the output that brings a wallet its change.
pub proof fn law_finished_payouts_keep_off_change(
    build: FinishedView,
    done: FinishedView,
    wallet: WalletId,
    i: int,
    other: WalletId,
)
    requires
        build.tx_id is Some,
        build.psbt is Some,
        build.psbt->0.outputs@.len() <= u32::MAX,
        build.outputs_accounted_for(),
        build.finishes_to(done),
        build.included_payouts.contains_key(wallet),
        0 <= i < build.included_payouts[wallet].len(),
        build.wallet_totals.contains_key(other),
        build.wallet_totals[other].change_satoshis != 0,
    ensures
        done.wallet_totals[other].change_outpoint is Some,
        done.wallet_totals[other].change_outpoint->0.vout != done.included_payouts[wallet][i].1,
{
    law_payouts_have_their_outputs(build, done);
    assert(done.included_payouts.dom().contains(wallet));
    assert(done.included_payouts.contains_key(wallet));
    assert(is_payout(done, wallet, i));
    law_change_is_noted(build, done, other);
    let outputs = build.psbt->0.outputs@;
    let total = build.wallet_totals[other];
    let vout = change_vout(outputs, total)->0;
    lemma_find_output(
        outputs,
        Set::empty(),
        total.change_address.address.script(),
        total.change_satoshis,
        0,
    );
    assert(is_change_vout(outputs, build.wallet_totals, vout));
}

/// Which outputs a list takes: those that it gets, and those were taken before. Each
/// payout gets the first that was free, and payouts that are alike get theirs in order.
proof fn lemma_list_is_greedy(
    outputs: Seq<TxOut>,
    list: Seq<(TxPayout, u32)>,
    n: nat,
    taken: Set<usize>,
)
    requires
        outputs.len() <= usize::MAX,
        n <= list.len(),
    ensures
        place_list(outputs, list, n, taken) matches Some((vouts, now)) ==> {
            &&& vouts.len() == n
            &&& forall|v: usize| #[trigger]
                now.contains(v) <==> taken.contains(v) || vouts.contains(v)
            &&& forall|i: int, j: usize|
                0 <= i < n && j < vouts[i] && j < outputs.len() && pays(
                    outputs[j as int],
                    payout_script(#[trigger] list[i]),
                    payout_sats(list[i]),
                ) ==> #[trigger] now.contains(j)
            &&& forall|i: int, k: int|
                0 <= i < k < n && payout_script(#[trigger] list[i]) == payout_script(
                    #[trigger] list[k],
                ) && payout_sats(list[i]) == payout_sats(list[k]) ==> vouts[i] < vouts[k]
            &&& forall|i: int|
                0 <= i < n ==> #[trigger] vouts[i] < outputs.len() && pays(
                    outputs[vouts[i] as int],
                    payout_script(list[i]),
                    payout_sats(list[i]),
                )
        },
    decreases n,
{
    if n > 0 {
        lemma_list_is_greedy(outputs, list, (n - 1) as nat, taken);
        if let Some((vouts, now)) = place_list(outputs, list, (n - 1) as nat, taken) {
            let script = payout_script(list[n - 1]);
            let sats = payout_sats(list[n - 1]);
            lemma_find_output(outputs, now, script, sats, 0);
            if let Some(vout) = find_output(outputs, now, script, sats, 0) {
                let all = vouts.push(vout);
                let then = now.insert(vout);
                assert forall|v: usize| #[trigger]
                    then.contains(v) <==> taken.contains(v) || all.contains(v) by {
                    if vouts.contains(v) {
                        let i = choose|i: int| 0 <= i < vouts.len() && vouts[i] == v;
                        assert(all[i] == v);
                    }
                    if v == vout {
                        assert(all[n - 1] == v);
                    }
                    if all.contains(v) && v != vout {
                        let i = choose|i: int| 0 <= i < all.len() && all[i] == v;
                        assert(vouts[i] == v);
                    }
                }
                assert forall|i: int, k: int|
                    0 <= i < k < n && payout_script(#[trigger] list[i]) == payout_script(
                        #[trigger] list[k],
                    ) && payout_sats(list[i]) == payout_sats(list[k]) implies all[i] < all[k] by {
                    if k == n - 1 {
                        assert(all[i] == vouts[i]);
                        assert(now.contains(vouts[i])) by {
                            assert(vouts.contains(vouts[i]));
                        }
                        if vout < vouts[i] {
                            assert(now.contains(vout));
                        }
                    }
                }
                assert forall|i: int, j: usize|
                    0 <= i < n && j < all[i] && j < outputs.len() && pays(
                        outputs[j as int],
                        payout_script(#[trigger] list[i]),
                        payout_sats(list[i]),
                    ) implies #[trigger] then.contains(j) by {
                    if i == n - 1 {
                        assert(now.contains(j));
                    } else {
                        assert(now.contains(j));
                    }
                }
            }
        }
    }
}

/// The same of all lists, whatever the order.
proof fn lemma_all_are_greedy(
    outputs: Seq<TxOut>,
    lists: Map<WalletId, Seq<(TxPayout, u32)>>,
    order: Seq<WalletId>,
    n: nat,
    taken: Set<usize>,
)
    requires
        outputs.len() <= usize::MAX,
        n <= order.len(),
        order.no_duplicates(),
    ensures
        place_all(outputs, lists, order, n, taken) matches Some((placed, now)) ==> {
            &&& forall|v: usize|
                taken.contains(v) ==> #[trigger] now.contains(v)
            &&& forall|v: usize| #[trigger]
                now.contains(v) && !taken.contains(v) ==> exists|k: int|
                    0 <= k < n && placed[#[trigger] order[k]].contains(v)
            &&& forall|k: int|
                0 <= k < n ==> {
                    let list = lists[#[trigger] order[k]];
                    let vouts = placed[order[k]];
                    &&& vouts.len() == list.len()
                    &&& forall|i: int, j: usize|
                        0 <= i < list.len() && j < vouts[i] && j < outputs.len() && pays(
                            outputs[j as int],
                            payout_script(#[trigger] list[i]),
                            payout_sats(list[i]),
                        ) ==> #[trigger] now.contains(j)
                    &&& forall|i: int, m: int|
                        0 <= i < m < list.len() && payout_script(#[trigger] list[i])
                            == payout_script(#[trigger] list[m]) && payout_sats(list[i])
                            == payout_sats(list[m]) ==> vouts[i] < vouts[m]
                }
        },
    decreases n,
{
    if n > 0 {
        lemma_all_are_greedy(outputs, lists, order, (n - 1) as nat, taken);
        if let Some((placed, now)) = place_all(outputs, lists, order, (n - 1) as nat, taken) {
            let wallet = order[n - 1];
            let list = lists[wallet];
            lemma_list_is_greedy(outputs, list, list.len(), now);
            if let Some((vouts, then)) = place_list(outputs, list, list.len(), now) {
                let all = placed.insert(wallet, vouts);
                assert forall|k: int| 0 <= k < n - 1 implies all[#[trigger] order[k]]
                    == placed[order[k]] by {
                    assert(order[k] != order[n - 1]);
                }
                assert(all[order[n - 1]] == vouts);
                assert forall|v: usize| #[trigger]
                    then.contains(v) && !taken.contains(v) implies exists|k: int|
                    0 <= k < n && all[#[trigger] order[k]].contains(v) by {
                    if now.contains(v) {
                        let k = choose|k: int|
                            0 <= k < n - 1 && placed[#[trigger] order[k]].contains(v);
                        assert(all[order[k]].contains(v));
                    } else {
                        assert(all[order[n - 1]].contains(v));
                    }
                }
                assert forall|k: int| 0 <= k < n implies {
                    let list_k = lists[#[trigger] order[k]];
                    let vouts_k = all[order[k]];
                    &&& vouts_k.len() == list_k.len()
                    &&& forall|i: int, j: usize|
                        0 <= i < list_k.len() && j < vouts_k[i] && j < outputs.len() && pays(
                            outputs[j as int],
                            payout_script(#[trigger] list_k[i]),
                            payout_sats(list_k[i]),
                        ) ==> #[trigger] then.contains(j)
                    &&& forall|i: int, m: int|
                        0 <= i < m < list_k.len() && payout_script(#[trigger] list_k[i])
                            == payout_script(#[trigger] list_k[m]) && payout_sats(list_k[i])
                            == payout_sats(list_k[m]) ==> vouts_k[i] < vouts_k[m]
                } by {
                    if k < n - 1 {
                        let list_k = lists[order[k]];
                        let vouts_k = all[order[k]];
                        assert forall|i: int, j: usize|
                            0 <= i < list_k.len() && j < vouts_k[i] && j < outputs.len() && pays(
                                outputs[j as int],
                                payout_script(#[trigger] list_k[i]),
                                payout_sats(list_k[i]),
                            ) implies #[trigger] then.contains(j) by {
                            assert(now.contains(j));
                        }
                    }
                }
            }
        }
    }
}

/// A payout has the first output that was free for it: an earlier one with its script and
/// amount brings a wallet its change or makes another payout.
pub proof fn law_finished_payouts_come_first(
    build: FinishedView,
    done: FinishedView,
    wallet: WalletId,
    i: int,
    vout: u32,
)
    requires
        build.tx_id is Some,
        build.psbt is Some,
        build.psbt->0.outputs@.len() <= u32::MAX,
        build.finishes_to(done),
        build.included_payouts.contains_key(wallet),
        0 <= i < build.included_payouts[wallet].len(),
        vout < done.included_payouts[wallet][i].1,
        build.psbt->0.outputs@[vout as int].script_pubkey@
            == build.included_payouts[wallet][i].0.1.script(),
        build.psbt->0.outputs@[vout as int].value == build.included_payouts[wallet][i].0.2@,
    ensures
        (exists|other: WalletId| #[trigger]
            build.wallet_totals.contains_key(other) && build.wallet_totals[other].change_satoshis
                != 0 && done.wallet_totals[other].change_outpoint is Some
                && done.wallet_totals[other].change_outpoint->0.vout == vout) || (exists|
            other: WalletId,
            j: int,
        |
            done.included_payouts.contains_key(other) && 0 <= j
                < done.included_payouts[other].len() && (#[trigger] done.included_payouts[other][j]).1
                == vout),
{
    let order = choose|order: Seq<WalletId>| #[trigger] build.vouts_noted(order, done);
    let outputs = build.outputs();
    let lists = build.included_payouts;
    let taken = change_vouts(outputs, build.wallet_totals);
    law_payouts_have_their_outputs(build, done);
    lemma_placed_apart(outputs, lists, order, taken);
    lemma_all_are_greedy(outputs, lists, order, order.len(), taken);
    let (placed, now) = place_all(outputs, lists, order, order.len(), taken)->0;
    assert(order.to_set().contains(wallet));
    let k = choose|k: int| 0 <= k < order.len() && order[k] == wallet;
    assert(lists[order[k]] == lists[wallet]);
    assert(placed[wallet][i] < outputs.len());
    let v = vout as usize;
    let list = lists[order[k]];
    assert(pays(outputs[v as int], payout_script(list[i]), payout_sats(list[i])));
    assert(now.contains(v));
    if taken.contains(v) {
        let other = choose|other: WalletId| #[trigger]
            build.wallet_totals.contains_key(other) && build.wallet_totals[other].change_satoshis
                != 0 && change_vout(outputs, build.wallet_totals[other]) == Some(v);
        assert(done.wallet_totals[other].change_outpoint
            == build.total_with_change(other).change_outpoint);
    } else {
        let m = choose|m: int| 0 <= m < order.len() && placed[#[trigger] order[m]].contains(v);
        let other = order[m];
        assert(order.to_set().contains(other));
        assert(lists.contains_key(other));
        let j = choose|j: int| 0 <= j < placed[other].len() && placed[other][j] == v;
        assert(done.included_payouts.dom().contains(other));
        assert(done.included_payouts[other][j].1 == vout);
    }
}

/// Payouts of one wallet that are alike have their outputs in the order of the payouts.
pub proof fn law_finished_payouts_stay_in_order(
    build: FinishedView,
    done: FinishedView,
    wallet: WalletId,
    i: int,
    j: int,
)
    requires
        build.tx_id is Some,
        build.psbt is Some,
        build.psbt->0.outputs@.len() <= u32::MAX,
        build.finishes_to(done),
        build.included_payouts.contains_key(wallet),
        0 <= i < j < build.included_payouts[wallet].len(),
        build.included_payouts[wallet][i].0.1.script()
            == build.included_payouts[wallet][j].0.1.script(),
        build.included_payouts[wallet][i].0.2@ == build.included_payouts[wallet][j].0.2@,
    ensures
        done.included_payouts[wallet][i].1 < done.included_payouts[wallet][j].1,
{
    let order = choose|order: Seq<WalletId>| #[trigger] build.vouts_noted(order, done);
    let outputs = build.outputs();
    let lists = build.included_payouts;
    let taken = change_vouts(outputs, build.wallet_totals);
    lemma_placed_apart(outputs, lists, order, taken);
    lemma_all_are_greedy(outputs, lists, order, order.len(), taken);
    let (placed, now) = place_all(outputs, lists, order, order.len(), taken)->0;
    assert(order.to_set().contains(wallet));
    let k = choose|k: int| 0 <= k < order.len() && order[k] == wallet;
    let list = lists[order[k]];
    assert(payout_script(list[i]) == payout_script(list[j]));
    assert(placed[wallet][i] < outputs.len() && placed[wallet][j] < outputs.len());
}

/// A build without a transaction has nothing to account for.
pub proof fn law_no_transaction_is_accounted_for(build: FinishedView)
    requires
        build.tx_id is None || build.psbt is None,
    ensures
        build.outputs_accounted_for(),
{
}

/// A build is accounted for only if every wallet with change has an output with its change
/// script and its change as value.
pub proof fn law_accounted_change_is_there(build: FinishedView, wallet: WalletId)
    requires
        build.tx_id is Some,
        build.psbt is Some,
        build.psbt->0.outputs@.len() <= usize::MAX,
        build.outputs_accounted_for(),
        build.wallet_totals.contains_key(wallet),
        build.wallet_totals[wallet].change_satoshis != 0,
    ensures
        exists|j: int|
            0 <= j < build.psbt->0.outputs@.len()
                && (#[trigger] build.psbt->0.outputs@[j]).script_pubkey@
                == build.wallet_totals[wallet].change_address.address.script()
                && build.psbt->0.outputs@[j].value == build.wallet_totals[wallet].change_satoshis,
{
    let total = build.wallet_totals[wallet];
    let outputs = build.psbt->0.outputs@;
    lemma_find_output(
        outputs,
        Set::empty(),
        total.change_address.address.script(),
        total.change_satoshis,
        0,
    );
    let vout = change_vout(outputs, total)->0;
    assert(outputs[vout as int].value == total.change_satoshis);
}

/// Does the output `vout` bring `wallet` its change: the first with its script and value?
pub open spec fn brings_change(build: FinishedView, wallet: WalletId, vout: int) -> bool {
    let outputs = build.psbt->0.outputs@;
    let total = build.wallet_totals[wallet];
    let script = total.change_address.address.script();
    &&& build.wallet_totals.contains_key(wallet)
    &&& total.change_satoshis != 0
    &&& 0 <= vout < outputs.len()
    &&& outputs[vout].script_pubkey@ == script
    &&& outputs[vout].value == total.change_satoshis
    &&& forall|j: int|
        0 <= j < vout && (#[trigger] outputs[j]).script_pubkey@ == script ==> outputs[j].value
            != total.change_satoshis
}

/// A build is accounted for where every wallet with change has an output for it and
/// `place` gives every payout an output of its own that pays it and is no change.
pub proof fn law_builds_that_fit_are_accounted_for(
    build: FinishedView,
    place: spec_fn(WalletId, int) -> usize,
)
    requires
        build.psbt is Some,
        build.psbt->0.outputs@.len() <= usize::MAX,
        forall|wallet: WalletId| #[trigger]
            build.wallet_totals.contains_key(wallet)
                && build.wallet_totals[wallet].change_satoshis != 0 ==> exists|j: int|
                0 <= j < build.psbt->0.outputs@.len()
                    && (#[trigger] build.psbt->0.outputs@[j]).script_pubkey@
                    == build.wallet_totals[wallet].change_address.address.script()
                    && build.psbt->0.outputs@[j].value
                    == build.wallet_totals[wallet].change_satoshis,
        forall|wallet: WalletId, i: int|
            build.included_payouts.contains_key(wallet) && 0 <= i
                < build.included_payouts[wallet].len() ==> {
                let vout = #[trigger] place(wallet, i);
                let payout = build.included_payouts[wallet][i].0;
                &&& vout < build.psbt->0.outputs@.len()
                &&& build.psbt->0.outputs@[vout as int].script_pubkey@ == payout.1.script()
                &&& build.psbt->0.outputs@[vout as int].value == payout.2@
                &&& forall|other: WalletId| !#[trigger] brings_change(build, other, vout as int)
            },
        forall|w1: WalletId, i1: int, w2: WalletId, i2: int|
            build.included_payouts.contains_key(w1) && 0 <= i1 < build.included_payouts[w1].len()
                && build.included_payouts.contains_key(w2) && 0 <= i2
                < build.included_payouts[w2].len() && (w1 != w2 || i1 != i2)
                ==> #[trigger] place(w1, i1) != #[trigger] place(w2, i2),
    ensures
        build.outputs_accounted_for(),
{
    let outputs = build.psbt->0.outputs@;
    let lists = build.included_payouts;
    assert forall|wallet: WalletId| #[trigger]
        build.wallet_totals.contains_key(wallet) && build.wallet_totals[wallet].change_satoshis
            != 0 implies change_vout(outputs, build.wallet_totals[wallet]) is Some by {
        let total = build.wallet_totals[wallet];
        let script = total.change_address.address.script();
        lemma_find_output(outputs, Set::empty(), script, total.change_satoshis, 0);
        let j = choose|j: int|
            0 <= j < outputs.len() && (#[trigger] outputs[j]).script_pubkey@ == script
                && outputs[j].value == total.change_satoshis;
        assert(pays(outputs[j], script, total.change_satoshis));
        if change_vout(outputs, total) is None {
            assert(!Set::<usize>::empty().contains(j as usize));
        }
    }
    let taken = change_vouts(outputs, build.wallet_totals);
    let slots = all_slots(lists);
    let placement = Map::new(
        |slot: Slot| slots.contains(slot),
        |slot: Slot| place(slot.0, slot.1),
    );
    assert forall|slot: Slot| #[trigger] slots.contains(slot) implies {
        &&& placement[slot] < outputs.len()
        &&& !taken.contains(placement[slot])
        &&& pays(
            outputs[placement[slot] as int],
            payout_script(lists[slot.0][slot.1]),
            payout_sats(lists[slot.0][slot.1]),
        )
    } by {
        let vout = place(slot.0, slot.1);
        assert(placement[slot] == vout);
        if taken.contains(vout) {
            let other = choose|other: WalletId| #[trigger]
                build.wallet_totals.contains_key(other)
                    && build.wallet_totals[other].change_satoshis != 0 && change_vout(
                    outputs,
                    build.wallet_totals[other],
                ) == Some(vout);
            let total = build.wallet_totals[other];
            let script = total.change_address.address.script();
            lemma_find_output(outputs, Set::empty(), script, total.change_satoshis, 0);
            assert forall|j: int|
                0 <= j < vout && (#[trigger] outputs[j]).script_pubkey@ == script implies
                outputs[j].value != total.change_satoshis by {
                assert(!Set::<usize>::empty().contains(j as usize));
            }
            assert(brings_change(build, other, vout as int));
        }
    }
    assert forall|a: Slot, b: Slot| #[trigger]
        slots.contains(a) && #[trigger] slots.contains(b) && a != b implies placement[a]
        != placement[b] by {
        assert(place(a.0, a.1) != place(b.0, b.1));
    }
    assert(is_placement(outputs, lists, slots, taken, placement));
}

/// In a build that is accounted for every payout can have an output of its own that pays
/// it and brings no wallet its change.
pub proof fn law_accounted_payouts_have_places(build: FinishedView) -> (place: spec_fn(
    WalletId,
    int,
) -> usize)
    requires
        build.tx_id is Some,
        build.psbt is Some,
        build.psbt->0.outputs@.len() <= usize::MAX,
        build.outputs_accounted_for(),
    ensures
        forall|wallet: WalletId, i: int|
            build.included_payouts.contains_key(wallet) && 0 <= i
                < build.included_payouts[wallet].len() ==> {
                let vout = #[trigger] place(wallet, i);
                let payout = build.included_payouts[wallet][i].0;
                &&& vout < build.psbt->0.outputs@.len()
                &&& build.psbt->0.outputs@[vout as int].script_pubkey@ == payout.1.script()
                &&& build.psbt->0.outputs@[vout as int].value == payout.2@
                &&& forall|other: WalletId| !#[trigger] brings_change(build, other, vout as int)
            },
        forall|w1: WalletId, i1: int, w2: WalletId, i2: int|
            build.included_payouts.contains_key(w1) && 0 <= i1 < build.included_payouts[w1].len()
                && build.included_payouts.contains_key(w2) && 0 <= i2
                < build.included_payouts[w2].len() && (w1 != w2 || i1 != i2)
                ==> #[trigger] place(w1, i1) != #[trigger] place(w2, i2),
{
    let outputs = build.psbt->0.outputs@;
    let lists = build.included_payouts;
    let slots = all_slots(lists);
    let taken = change_vouts(outputs, build.wallet_totals);
    let placement = choose|placement: Map<Slot, usize>|
        is_placement(outputs, lists, slots, taken, placement);
    let place = |wallet: WalletId, i: int| placement[(wallet, i)];
    assert forall|wallet: WalletId, i: int|
        build.included_payouts.contains_key(wallet) && 0 <= i
            < build.included_payouts[wallet].len() implies {
        let vout = #[trigger] place(wallet, i);
        let payout = build.included_payouts[wallet][i].0;
        &&& vout < build.psbt->0.outputs@.len()
        &&& build.psbt->0.outputs@[vout as int].script_pubkey@ == payout.1.script()
        &&& build.psbt->0.outputs@[vout as int].value == payout.2@
        &&& forall|other: WalletId| !#[trigger] brings_change(build, other, vout as int)
    } by {
        assert(slots.contains((wallet, i)));
        let vout = place(wallet, i);
        assert forall|other: WalletId| !#[trigger] brings_change(build, other, vout as int) by {
            if brings_change(build, other, vout as int) {
                let total = build.wallet_totals[other];
                let script = total.change_address.address.script();
                lemma_find_output(outputs, Set::empty(), script, total.change_satoshis, 0);
                assert(pays(outputs[vout as int], script, total.change_satoshis));
                assert(!Set::<usize>::empty().contains(vout));
                assert(change_vout(outputs, total) is Some);
                let found = change_vout(outputs, total)->0;
                if found < vout {
                    assert(outputs[found as int].script_pubkey@ == script);
                }
                assert(found == vout);
                assert(is_change_vout(outputs, build.wallet_totals, vout));
                assert(taken.contains(vout));
            }
        }
    }
    assert forall|w1: WalletId, i1: int, w2: WalletId, i2: int|
        build.included_payouts.contains_key(w1) && 0 <= i1 < build.included_payouts[w1].len()
            && build.included_payouts.contains_key(w2) && 0 <= i2
            < build.included_payouts[w2].len() && (w1 != w2 || i1 != i2) implies #[trigger] place(
        w1,
        i1,
    ) != #[trigger] place(w2, i2) by {
        assert(slots.contains((w1, i1)) && slots.contains((w2, i2)));
    }
    place
}

/// However many outputs there are, the number noted with a payout is that of its place
/// among them, as far as 32 bits hold it. The places pay the payouts, differ from each
/// other and bring no wallet its change; any earlier output that would do is taken by one
/// or the other, and payouts of one wallet that are alike have their places in order.
pub proof fn law_finished_payouts_note_their_places(build: FinishedView, done: FinishedView) -> (
places: Map<WalletId, Seq<usize>>)
    requires
        build.tx_id is Some,
        build.psbt is Some,
        build.psbt->0.outputs@.len() <= usize::MAX,
        build.finishes_to(done),
    ensures
        done.included_payouts.dom() == build.included_payouts.dom(),
        forall|wallet: WalletId| #[trigger]
            build.included_payouts.contains_key(wallet) ==> done.included_payouts[wallet].len()
                == build.included_payouts[wallet].len(),
        forall|wallet: WalletId, i: int|
            build.included_payouts.contains_key(wallet) && 0 <= i
                < build.included_payouts[wallet].len() ==> {
                let place = #[trigger] places[wallet][i];
                let payout = build.included_payouts[wallet][i].0;
                let outputs = build.psbt->0.outputs@;
                &&& done.included_payouts[wallet][i] == (payout, place as u32)
                &&& place < outputs.len()
                &&& outputs[place as int].script_pubkey@ == payout.1.script()
                &&& outputs[place as int].value == payout.2@
                &&& forall|other: WalletId| !#[trigger] brings_change(build, other, place as int)
            },
        forall|w1: WalletId, i1: int, w2: WalletId, i2: int|
            build.included_payouts.contains_key(w1) && 0 <= i1 < build.included_payouts[w1].len()
                && build.included_payouts.contains_key(w2) && 0 <= i2
                < build.included_payouts[w2].len() && (w1 != w2 || i1 != i2)
                ==> #[trigger] places[w1][i1] != #[trigger] places[w2][i2],
        forall|wallet: WalletId, i: int, j: int|
            build.included_payouts.contains_key(wallet) && 0 <= i < j
                < build.included_payouts[wallet].len()
                && build.included_payouts[wallet][i].0.1.script()
                == build.included_payouts[wallet][j].0.1.script()
                && build.included_payouts[wallet][i].0.2@
                == build.included_payouts[wallet][j].0.2@ ==> #[trigger] places[wallet][i]
                < #[trigger] places[wallet][j],
        forall|wallet: WalletId, i: int, vout: usize|
            build.included_payouts.contains_key(wallet) && 0 <= i
                < build.included_payouts[wallet].len() && vout < places[wallet][i]
                && #[trigger] build.psbt->0.outputs@[vout as int].script_pubkey@
                == build.included_payouts[wallet][i].0.1.script()
                && build.psbt->0.outputs@[vout as int].value
                == (#[trigger] build.included_payouts[wallet][i]).0.2@ ==> (exists|
                other: WalletId,
            | #[trigger] brings_change(build, other, vout as int)) || (exists|
                other: WalletId,
                j: int,
            |
                build.included_payouts.contains_key(other) && 0 <= j
                    < build.included_payouts[other].len() && #[trigger] places[other][j] == vout),
{
    let order = choose|order: Seq<WalletId>| #[trigger] build.vouts_noted(order, done);
    let outputs = build.psbt->0.outputs@;
    let lists = build.included_payouts;
    let taken = change_vouts(outputs, build.wallet_totals);
    lemma_placed_apart(outputs, lists, order, taken);
    lemma_all_are_greedy(outputs, lists, order, order.len(), taken);
    let (placed, now) = place_all(outputs, lists, order, order.len(), taken)->0;
    assert forall|vout: usize, other: WalletId| #[trigger]
        brings_change(build, other, vout as int) implies #[trigger] taken.contains(vout) by {
        lemma_brings_change(build, other, vout);
    }
    assert forall|wallet: WalletId, i: int|
        lists.contains_key(wallet) && 0 <= i < lists[wallet].len() implies {
        let place = #[trigger] placed[wallet][i];
        let payout = lists[wallet][i].0;
        &&& done.included_payouts[wallet][i] == (payout, place as u32)
        &&& place < outputs.len()
        &&& outputs[place as int].script_pubkey@ == payout.1.script()
        &&& outputs[place as int].value == payout.2@
        &&& forall|other: WalletId| !#[trigger] brings_change(build, other, place as int)
    } by {
        assert(placed.contains_key(wallet));
        let place = placed[wallet][i];
        assert(!taken.contains(place));
        assert forall|other: WalletId| !#[trigger] brings_change(build, other, place as int) by {
            if brings_change(build, other, place as int) {
                lemma_brings_change(build, other, place);
            }
        }
    }
    assert forall|w1: WalletId, i1: int, w2: WalletId, i2: int|
        lists.contains_key(w1) && 0 <= i1 < lists[w1].len() && lists.contains_key(w2) && 0 <= i2
            < lists[w2].len() && (w1 != w2 || i1 != i2) implies #[trigger] placed[w1][i1]
        != #[trigger] placed[w2][i2] by {
        assert(placed.contains_key(w1) && placed.contains_key(w2));
    }
    assert forall|wallet: WalletId, i: int, j: int|
        lists.contains_key(wallet) && 0 <= i < j < lists[wallet].len()
            && lists[wallet][i].0.1.script() == lists[wallet][j].0.1.script()
            && lists[wallet][i].0.2@ == lists[wallet][j].0.2@ implies #[trigger] placed[wallet][i]
        < #[trigger] placed[wallet][j] by {
        assert(order.to_set().contains(wallet));
        let k = choose|k: int| 0 <= k < order.len() && order[k] == wallet;
        let list = lists[order[k]];
        assert(payout_script(list[i]) == payout_script(list[j]));
    }
    assert forall|wallet: WalletId, i: int, vout: usize|
        lists.contains_key(wallet) && 0 <= i < lists[wallet].len() && vout < placed[wallet][i]
            && #[trigger] outputs[vout as int].script_pubkey@ == lists[wallet][i].0.1.script()
            && outputs[vout as int].value == (#[trigger] lists[wallet][i]).0.2@ implies (exists|
        other: WalletId,
    | #[trigger] brings_change(build, other, vout as int)) || (exists|other: WalletId, j: int|
        lists.contains_key(other) && 0 <= j < lists[other].len() && #[trigger] placed[other][j]
            == vout) by {
        assert(order.to_set().contains(wallet));
        let k = choose|k: int| 0 <= k < order.len() && order[k] == wallet;
        let list = lists[order[k]];
        assert(placed.contains_key(wallet));
        assert(placed[wallet][i] < outputs.len());
        assert(pays(outputs[vout as int], payout_script(list[i]), payout_sats(list[i])));
        assert(now.contains(vout));
        if taken.contains(vout) {
            let other = choose|other: WalletId| #[trigger]
                build.wallet_totals.contains_key(other)
                    && build.wallet_totals[other].change_satoshis != 0 && change_vout(
                    outputs,
                    build.wallet_totals[other],
                ) == Some(vout);
            lemma_change_brings(build, other, vout);
            assert(brings_change(build, other, vout as int));
        } else {
            let m = choose|m: int|
                0 <= m < order.len() && placed[#[trigger] order[m]].contains(vout);
            let other = order[m];
            assert(order.to_set().contains(other));
            assert(lists.contains_key(other));
            let j = choose|j: int| 0 <= j < placed[other].len() && placed[other][j] == vout;
            assert(placed[other][j] == vout);
        }
    }
    placed
}

proof fn lemma_brings_change(build: FinishedView, wallet: WalletId, vout: usize)
    requires
        build.psbt is Some,
        build.psbt->0.outputs@.len() <= usize::MAX,
        brings_change(build, wallet, vout as int),
    ensures
        change_vout(build.psbt->0.outputs@, build.wallet_totals[wallet]) == Some(vout),
        change_vouts(build.psbt->0.outputs@, build.wallet_totals).contains(vout),
{
    let outputs = build.psbt->0.outputs@;
    let total = build.wallet_totals[wallet];
    let script = total.change_address.address.script();
    lemma_find_output(outputs, Set::empty(), script, total.change_satoshis, 0);
    assert(pays(outputs[vout as int], script, total.change_satoshis));
    assert(!Set::<usize>::empty().contains(vout));
    assert(change_vout(outputs, total) is Some);
    let found = change_vout(outputs, total)->0;
    if found < vout {
        assert(outputs[found as int].script_pubkey@ == script);
    }
    assert(is_change_vout(outputs, build.wallet_totals, vout));
}

proof fn lemma_change_brings(build: FinishedView, wallet: WalletId, vout: usize)
    requires
        build.psbt is Some,
        build.psbt->0.outputs@.len() <= usize::MAX,
        build.wallet_totals.contains_key(wallet),
        build.wallet_totals[wallet].change_satoshis != 0,
        change_vout(build.psbt->0.outputs@, build.wallet_totals[wallet]) == Some(vout),
    ensures
        brings_change(build, wallet, vout as int),
{
    let outputs = build.psbt->0.outputs@;
    let total = build.wallet_totals[wallet];
    let script = total.change_address.address.script();
    lemma_find_output(outputs, Set::empty(), script, total.change_satoshis, 0);
    assert forall|j: int| 0 <= j < vout && (#[trigger] outputs[j]).script_pubkey@ == script implies
        outputs[j].value != total.change_satoshis by {
        assert(!Set::<usize>::empty().contains(j as usize));
    }
}

/// However many outputs there are, the change of a wallet that has some is noted at the
/// number of the output that brings it, as far as 32 bits hold it, in the transaction.
pub proof fn law_finished_change_notes_its_place(
    build: FinishedView,
    done: FinishedView,
    wallet: WalletId,
) -> (place: usize)
    requires
        build.tx_id is Some,
        build.psbt is Some,
        build.psbt->0.outputs@.len() <= usize::MAX,
        build.outputs_accounted_for(),
        build.finishes_to(done),
        build.wallet_totals.contains_key(wallet),
        build.wallet_totals[wallet].change_satoshis != 0,
    ensures
        brings_change(build, wallet, place as int),
        done.wallet_totals[wallet].change_outpoint is Some,
        Some(done.wallet_totals[wallet].change_outpoint->0.txid) == build.tx_id,
        done.wallet_totals[wallet].change_outpoint->0.vout == place as u32,
{
    let place = change_vout(build.psbt->0.outputs@, build.wallet_totals[wallet])->0;
    lemma_change_brings(build, wallet, place);
    place
}

/// Where all payouts can be placed they are: each at an output that is free and pays it,
/// no two at the same one.
pub proof fn law_placed_payouts_are_paid(
    outputs: Vec<TxOut>,
    payouts: HashMap<WalletId, Vec<(TxPayout, u32)>>,
    taken: HashSet<usize>,
    res: Option<HashMap<WalletId, Vec<usize>>>,
    w1: WalletId,
    i1: int,
    w2: WalletId,
    i2: int,
)
    requires
        outputs@.len() <= usize::MAX,
        call_ensures(place_payouts, (&outputs, &payouts, taken), res),
        res is Some,
        payouts@.contains_key(w1),
        0 <= i1 < payouts@[w1]@.len(),
        payouts@.contains_key(w2),
        0 <= i2 < payouts@[w2]@.len(),
    ensures
        res->0@.contains_key(w1),
        res->0@[w1]@.len() == payouts@[w1]@.len(),
        ({
            let vout = res->0@[w1]@[i1];
            &&& vout < outputs@.len()
            &&& !taken@.contains(vout)
            &&& outputs@[vout as int].script_pubkey@ == payouts@[w1]@[i1].0.1.script()
            &&& outputs@[vout as int].value == payouts@[w1]@[i1].0.2@
        }),
        w1 != w2 || i1 != i2 ==> res->0@[w1]@[i1] != res->0@[w2]@[i2],
{
    let lists = lists_view(payouts@);
    let placed = lists_view(res->0@);
    let order = choose|order: Seq<WalletId>|
        {
            &&& #[trigger] lists_once(order, payouts@.dom())
            &&& place_all(outputs@, lists, order, order.len(), taken@) matches Some(all) && all.0
                == placed
        };
    assert(lists.dom() =~= payouts@.dom());
    lemma_placed_apart(outputs@, lists, order, taken@);
    assert(placed.contains_key(w1) && placed.contains_key(w2));
    assert(placed[w1][i1] == res->0@[w1]@[i1]);
    assert(placed[w2][i2] == res->0@[w2]@[i2]);
}

/// Payouts are placed wherever each can have a free output of its own.
pub proof fn law_payouts_that_fit_are_placed(
    outputs: Vec<TxOut>,
    payouts: HashMap<WalletId, Vec<(TxPayout, u32)>>,
    taken: HashSet<usize>,
    res: Option<HashMap<WalletId, Vec<usize>>>,
    place: spec_fn(WalletId, int) -> usize,
)
    requires
        call_ensures(place_payouts, (&outputs, &payouts, taken), res),
        forall|wallet: WalletId, i: int|
            payouts@.contains_key(wallet) && 0 <= i < payouts@[wallet]@.len() ==> {
                let vout = #[trigger] place(wallet, i);
                &&& vout < outputs@.len()
                &&& !taken@.contains(vout)
                &&& outputs@[vout as int].script_pubkey@ == payouts@[wallet]@[i].0.1.script()
                &&& outputs@[vout as int].value == payouts@[wallet]@[i].0.2@
            },
        forall|w1: WalletId, i1: int, w2: WalletId, i2: int|
            payouts@.contains_key(w1) && 0 <= i1 < payouts@[w1]@.len() && payouts@.contains_key(w2)
                && 0 <= i2 < payouts@[w2]@.len() && (w1 != w2 || i1 != i2) ==> #[trigger] place(
                w1,
                i1,
            ) != #[trigger] place(w2, i2),
    ensures
        res is Some,
{
    let lists = lists_view(payouts@);
    let slots = all_slots(lists);
    let placement = Map::new(
        |slot: Slot| slots.contains(slot),
        |slot: Slot| place(slot.0, slot.1),
    );
    assert forall|slot: Slot| #[trigger] slots.contains(slot) implies {
        &&& placement[slot] < outputs@.len()
        &&& !taken@.contains(placement[slot])
        &&& pays(
            outputs@[placement[slot] as int],
            payout_script(lists[slot.0][slot.1]),
            payout_sats(lists[slot.0][slot.1]),
        )
    } by {
        assert(placement[slot] == place(slot.0, slot.1));
        assert(lists[slot.0] == payouts@[slot.0]@);
    }
    assert forall|a: Slot, b: Slot| #[trigger]
        slots.contains(a) && #[trigger] slots.contains(b) && a != b implies placement[a]
        != placement[b] by {
        assert(place(a.0, a.1) != place(b.0, b.1));
    }
    assert(is_placement(outputs@, lists, slots, taken@, placement));
}

} // verus!
