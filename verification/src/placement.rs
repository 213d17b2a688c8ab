//! Finding the outputs of a transaction that pay the change and the payouts.

use std::collections::{HashMap, HashSet};

use vstd::prelude::*;
use vstd::std_specs::iter::IteratorSpec;

use crate::primitives::{Satoshis, WalletId};
use crate::psbt::{TxOut, TxPayout};
use crate::script::same_script;

verus! {

broadcast use vstd::std_specs::hash::group_hash_axioms;

/// Does `output` pay `sats` to `script`?
pub open spec fn pays(output: TxOut, script: Seq<u8>, sats: int) -> bool {
    output.script_pubkey@ == script && output.value == sats
}

/// The first output at `start` or behind it that is not taken and pays `sats` to
/// `script`.
pub open spec fn find_output(
    outputs: Seq<TxOut>,
    taken: Set<usize>,
    script: Seq<u8>,
    sats: int,
    start: int,
) -> Option<usize>
    decreases outputs.len() - start,
{
    if start < 0 || start >= outputs.len() {
        None
    } else if !taken.contains(start as usize) && pays(outputs[start], script, sats) {
        Some(start as usize)
    } else {
        find_output(outputs, taken, script, sats, start + 1)
    }
}

/// [`find_output`] finds an output exactly where there is one, and no earlier one
/// would do.
pub proof fn lemma_find_output(
    outputs: Seq<TxOut>,
    taken: Set<usize>,
    script: Seq<u8>,
    sats: int,
    start: int,
)
    requires
        0 <= start,
        outputs.len() <= usize::MAX,
    ensures
        find_output(outputs, taken, script, sats, start) matches Some(v) ==> {
            &&& start <= v < outputs.len()
            &&& !taken.contains(v)
            &&& pays(outputs[v as int], script, sats)
            &&& forall|j: usize| #[trigger]
                taken.contains(j) || !(start <= j < v && pays(outputs[j as int], script, sats))
        },
        find_output(outputs, taken, script, sats, start) is None ==> forall|j: usize| #[trigger]
            taken.contains(j) || !(start <= j < outputs.len() && pays(
                outputs[j as int],
                script,
                sats,
            )),
    decreases outputs.len() - start,
{
    if start < outputs.len() && !(!taken.contains(start as usize) && pays(
        outputs[start],
        script,
        sats,
    )) {
        lemma_find_output(outputs, taken, script, sats, start + 1);
    }
}

/// The first output that is not taken and pays `sats` to `script`.
pub fn search_output(
    outputs: &Vec<TxOut>,
    taken: &HashSet<usize>,
    script: &Vec<u8>,
    sats: Satoshis,
) -> (res: Option<usize>)
    ensures
        res == find_output(outputs@, taken@, script@, sats@, 0),
        res matches Some(v) ==> v < outputs@.len(),
{
    let mut i: usize = 0;
    while i < outputs.len()
        invariant
            i <= outputs@.len(),
            find_output(outputs@, taken@, script@, sats@, 0) == find_output(
                outputs@,
                taken@,
                script@,
                sats@,
                i as int,
            ),
        decreases outputs@.len() - i,
    {
        if !taken.contains(&i) && same_script(&outputs[i].script_pubkey, script)
            && Satoshis::from_output_value(outputs[i].value).same(sats) {
            return Some(i);
        }
        i += 1;
    }
    None
}

/// The script that a listed payout goes to.
pub open spec fn payout_script(entry: (TxPayout, u32)) -> Seq<u8> {
    entry.0.1.script()
}

/// The amount of a listed payout.
pub open spec fn payout_sats(entry: (TxPayout, u32)) -> int {
    entry.0.2@
}

/// The outputs that the first `n` payouts of a list get, each the first that
/// suits it and is not taken, and the outputs that are taken then.
pub open spec fn place_list(
    outputs: Seq<TxOut>,
    list: Seq<(TxPayout, u32)>,
    n: nat,
    taken: Set<usize>,
) -> Option<(Seq<usize>, Set<usize>)>
    decreases n,
{
    if n == 0 {
        Some((Seq::empty(), taken))
    } else {
        match place_list(outputs, list, (n - 1) as nat, taken) {
            None => None,
            Some((vouts, now_taken)) => match find_output(
                outputs,
                now_taken,
                payout_script(list[n - 1]),
                payout_sats(list[n - 1]),
                0,
            ) {
                None => None,
                Some(vout) => Some((vouts.push(vout), now_taken.insert(vout))),
            },
        }
    }
}

/// The outputs that the payouts of the first `n` wallets of `order` get when the
/// wallets have their turn in that order, and the outputs that are taken then.
pub open spec fn place_all(
    outputs: Seq<TxOut>,
    lists: Map<WalletId, Seq<(TxPayout, u32)>>,
    order: Seq<WalletId>,
    n: nat,
    taken: Set<usize>,
) -> Option<(Map<WalletId, Seq<usize>>, Set<usize>)>
    decreases n,
{
    if n == 0 {
        Some((Map::empty(), taken))
    } else {
        match place_all(outputs, lists, order, (n - 1) as nat, taken) {
            None => None,
            Some((placed, now_taken)) => match place_list(
                outputs,
                lists[order[n - 1]],
                lists[order[n - 1]].len(),
                now_taken,
            ) {
                None => None,
                Some((vouts, then_taken)) => Some(
                    (placed.insert(order[n - 1], vouts), then_taken),
                ),
            },
        }
    }
}

/// Does `order` hold every member of `members` once, and nothing else?
pub open spec fn lists_once(order: Seq<u128>, members: Set<u128>) -> bool {
    order.no_duplicates() && order.to_set() == members
}

/// A payout among the lists of all wallets: its wallet and its place there.
pub type Slot = (WalletId, int);

/// The payouts of all wallets.
pub open spec fn all_slots(lists: Map<WalletId, Seq<(TxPayout, u32)>>) -> Set<Slot> {
    Set::new(|slot: Slot| lists.contains_key(slot.0) && 0 <= slot.1 < lists[slot.0].len())
}

/// Does `placement` give each payout of `slots` an output of its own that is not
/// taken and pays it?
pub open spec fn is_placement(
    outputs: Seq<TxOut>,
    lists: Map<WalletId, Seq<(TxPayout, u32)>>,
    slots: Set<Slot>,
    taken: Set<usize>,
    placement: Map<Slot, usize>,
) -> bool {
    &&& forall|slot: Slot| #[trigger]
        slots.contains(slot) ==> {
            &&& placement[slot] < outputs.len()
            &&& !taken.contains(placement[slot])
            &&& pays(
                outputs[placement[slot] as int],
                payout_script(lists[slot.0][slot.1]),
                payout_sats(lists[slot.0][slot.1]),
            )
        }
    &&& forall|a: Slot, b: Slot| #[trigger]
        slots.contains(a) && #[trigger] slots.contains(b) && a != b ==> placement[a]
            != placement[b]
}

/// Can each payout of `slots` have an output of its own that is not taken?
pub open spec fn slots_placeable(
    outputs: Seq<TxOut>,
    lists: Map<WalletId, Seq<(TxPayout, u32)>>,
    slots: Set<Slot>,
    taken: Set<usize>,
) -> bool {
    exists|placement: Map<Slot, usize>| is_placement(outputs, lists, slots, taken, placement)
}

/// Can each payout have an output of its own that is not taken?
pub open spec fn placeable(
    outputs: Seq<TxOut>,
    lists: Map<WalletId, Seq<(TxPayout, u32)>>,
    taken: Set<usize>,
) -> bool {
    slots_placeable(outputs, lists, all_slots(lists), taken)
}

/// Where every payout can have an output of its own, giving one of them the first
/// that suits it leaves enough for the others.
proof fn lemma_place_one(
    outputs: Seq<TxOut>,
    lists: Map<WalletId, Seq<(TxPayout, u32)>>,
    slots: Set<Slot>,
    taken: Set<usize>,
    slot: Slot,
)
    requires
        outputs.len() <= usize::MAX,
        slots_placeable(outputs, lists, slots, taken),
        slots.contains(slot),
    ensures
        find_output(
            outputs,
            taken,
            payout_script(lists[slot.0][slot.1]),
            payout_sats(lists[slot.0][slot.1]),
            0,
        ) matches Some(v) && slots_placeable(outputs, lists, slots.remove(slot), taken.insert(v)),
{
    let script = payout_script(lists[slot.0][slot.1]);
    let sats = payout_sats(lists[slot.0][slot.1]);
    let placement = choose|placement: Map<Slot, usize>|
        is_placement(outputs, lists, slots, taken, placement);
    lemma_find_output(outputs, taken, script, sats, 0);
    let own = placement[slot];
    assert(!taken.contains(own) && pays(outputs[own as int], script, sats));
    assert(find_output(outputs, taken, script, sats, 0) is Some);
    let v = find_output(outputs, taken, script, sats, 0)->0;
    let rest = slots.remove(slot);
    if exists|other: Slot| #[trigger] rest.contains(other) && placement[other] == v {
        let other = choose|other: Slot| #[trigger] rest.contains(other) && placement[other] == v;
        assert(slots.contains(other));
        let swapped = placement.insert(other, own);
        assert forall|s: Slot| #[trigger] rest.contains(s) implies {
            &&& swapped[s] < outputs.len()
            &&& !taken.insert(v).contains(swapped[s])
            &&& pays(
                outputs[swapped[s] as int],
                payout_script(lists[s.0][s.1]),
                payout_sats(lists[s.0][s.1]),
            )
        } by {
            assert(slots.contains(s));
            if s != other {
                assert(placement[s] != v);
            }
        }
        assert forall|a: Slot, b: Slot| #[trigger]
            rest.contains(a) && #[trigger] rest.contains(b) && a != b implies swapped[a]
            != swapped[b] by {
            assert(slots.contains(a) && slots.contains(b));
        }
        assert(is_placement(outputs, lists, rest, taken.insert(v), swapped));
    } else {
        assert forall|s: Slot| #[trigger] rest.contains(s) implies {
            &&& placement[s] < outputs.len()
            &&& !taken.insert(v).contains(placement[s])
            &&& pays(
                outputs[placement[s] as int],
                payout_script(lists[s.0][s.1]),
                payout_sats(lists[s.0][s.1]),
            )
        } by {
            assert(slots.contains(s));
        }
        assert forall|a: Slot, b: Slot| #[trigger]
            rest.contains(a) && #[trigger] rest.contains(b) && a != b implies placement[a]
            != placement[b] by {
            assert(slots.contains(a) && slots.contains(b));
        }
        assert(is_placement(outputs, lists, rest, taken.insert(v), placement));
    }
}

/// `slots` without the first `n` payouts of `wallet`.
spec fn without(slots: Set<Slot>, wallet: WalletId, n: nat) -> Set<Slot> {
    slots.filter(|slot: Slot| !(slot.0 == wallet && slot.1 < n))
}

proof fn lemma_place_list_succeeds(
    outputs: Seq<TxOut>,
    lists: Map<WalletId, Seq<(TxPayout, u32)>>,
    slots: Set<Slot>,
    taken: Set<usize>,
    wallet: WalletId,
    n: nat,
)
    requires
        outputs.len() <= usize::MAX,
        slots_placeable(outputs, lists, slots, taken),
        forall|slot: Slot| #[trigger] slots.contains(slot) ==> slot.1 >= 0,
        forall|i: int| 0 <= i < n ==> #[trigger] slots.contains((wallet, i)),
    ensures
        place_list(outputs, lists[wallet], n, taken) matches Some(res) && slots_placeable(
            outputs,
            lists,
            without(slots, wallet, n),
            res.1,
        ),
    decreases n,
{
    if n == 0 {
        assert(without(slots, wallet, n) =~= slots);
    } else {
        lemma_place_list_succeeds(outputs, lists, slots, taken, wallet, (n - 1) as nat);
        let slot = (wallet, n - 1);
        assert(slots.contains(slot));
        let before = without(slots, wallet, (n - 1) as nat);
        let res = place_list(outputs, lists[wallet], (n - 1) as nat, taken)->0;
        lemma_place_one(outputs, lists, before, res.1, slot);
        assert(before.remove(slot) =~= without(slots, wallet, n));
    }
}

/// The payouts of the wallets of `order` from the `n`-th on.
spec fn slots_from(
    lists: Map<WalletId, Seq<(TxPayout, u32)>>,
    order: Seq<WalletId>,
    n: nat,
) -> Set<Slot> {
    all_slots(lists).filter(|slot: Slot| !order.take(n as int).contains(slot.0))
}

proof fn lemma_place_all_prefix(
    outputs: Seq<TxOut>,
    lists: Map<WalletId, Seq<(TxPayout, u32)>>,
    order: Seq<WalletId>,
    n: nat,
    taken: Set<usize>,
)
    requires
        outputs.len() <= usize::MAX,
        placeable(outputs, lists, taken),
        lists_once(order, lists.dom()),
        n <= order.len(),
    ensures
        place_all(outputs, lists, order, n, taken) matches Some(res) && slots_placeable(
            outputs,
            lists,
            slots_from(lists, order, n),
            res.1,
        ),
    decreases n,
{
    if n == 0 {
        assert(slots_from(lists, order, n) =~= all_slots(lists));
    } else {
        lemma_place_all_prefix(outputs, lists, order, (n - 1) as nat, taken);
        let res = place_all(outputs, lists, order, (n - 1) as nat, taken)->0;
        let wallet = order[n - 1];
        let slots = slots_from(lists, order, (n - 1) as nat);
        assert(order.to_set().contains(wallet));
        assert(!order.take(n - 1).contains(wallet));
        assert forall|i: int| 0 <= i < lists[wallet].len() implies #[trigger] slots.contains(
            (wallet, i),
        ) by {}
        lemma_place_list_succeeds(outputs, lists, slots, res.1, wallet, lists[wallet].len());
        let earlier = order.take(n - 1);
        let now = order.take(n as int);
        assert(now =~= earlier.push(wallet));
        assert(without(slots, wallet, lists[wallet].len()) =~= slots_from(lists, order, n)) by {
            assert forall|slot: Slot| #[trigger]
                without(slots, wallet, lists[wallet].len()).contains(slot) implies slots_from(
                lists,
                order,
                n,
            ).contains(slot) by {
                if now.contains(slot.0) {
                    let k = choose|k: int|
                        0 <= k < now.len() && now[k] == slot.0;
                    if k < n - 1 {
                        assert(earlier[k] == slot.0);
                    }
                }
            }
            assert forall|slot: Slot| #[trigger]
                slots_from(lists, order, n).contains(slot) implies without(
                slots,
                wallet,
                lists[wallet].len(),
            ).contains(slot) by {
                assert(now[n - 1] == wallet);
                if earlier.contains(slot.0) {
                    let k = choose|k: int|
                        0 <= k < earlier.len() && earlier[k] == slot.0;
                    assert(now[k] == slot.0);
                }
            }
        }
    }
}

/// Where every payout can have an output of its own, each gets one, whatever the
/// order in which the wallets have their turn.
pub proof fn lemma_placeable_places(
    outputs: Seq<TxOut>,
    lists: Map<WalletId, Seq<(TxPayout, u32)>>,
    order: Seq<WalletId>,
    taken: Set<usize>,
)
    requires
        outputs.len() <= usize::MAX,
        placeable(outputs, lists, taken),
        lists_once(order, lists.dom()),
    ensures
        place_all(outputs, lists, order, order.len(), taken) is Some,
{
    lemma_place_all_prefix(outputs, lists, order, order.len(), taken);
}

proof fn lemma_place_list_facts(
    outputs: Seq<TxOut>,
    list: Seq<(TxPayout, u32)>,
    n: nat,
    taken: Set<usize>,
)
    requires
        outputs.len() <= usize::MAX,
        n <= list.len(),
    ensures
        place_list(outputs, list, n, taken) matches Some((vouts, now_taken)) ==> {
            &&& vouts.len() == n
            &&& taken.subset_of(now_taken)
            &&& forall|i: int|
                0 <= i < n ==> {
                    &&& #[trigger] vouts[i] < outputs.len()
                    &&& !taken.contains(vouts[i])
                    &&& now_taken.contains(vouts[i])
                    &&& pays(
                        outputs[vouts[i] as int],
                        payout_script(list[i]),
                        payout_sats(list[i]),
                    )
                }
            &&& forall|i: int, j: int| 0 <= i < j < n ==> #[trigger] vouts[i] != #[trigger] vouts[j]
        },
    decreases n,
{
    if n > 0 {
        lemma_place_list_facts(outputs, list, (n - 1) as nat, taken);
        if let Some((vouts, now_taken)) = place_list(outputs, list, (n - 1) as nat, taken) {
            lemma_find_output(
                outputs,
                now_taken,
                payout_script(list[n - 1]),
                payout_sats(list[n - 1]),
                0,
            );
        }
    }
}

/// What giving out outputs comes to: each payout has an output that pays it and
/// was not taken before, and no two payouts have the same.
pub open spec fn well_placed(
    outputs: Seq<TxOut>,
    lists: Map<WalletId, Seq<(TxPayout, u32)>>,
    taken: Set<usize>,
    placed: Map<WalletId, Seq<usize>>,
) -> bool {
    &&& forall|w: WalletId| #[trigger]
        placed.contains_key(w) ==> placed[w].len() == lists[w].len()
    &&& forall|w: WalletId, i: int|
        placed.contains_key(w) && 0 <= i < placed[w].len() ==> {
            &&& #[trigger] placed[w][i] < outputs.len()
            &&& !taken.contains(placed[w][i])
            &&& pays(
                outputs[placed[w][i] as int],
                payout_script(lists[w][i]),
                payout_sats(lists[w][i]),
            )
        }
    &&& forall|w: WalletId, i: int, x: WalletId, j: int|
        placed.contains_key(w) && 0 <= i < placed[w].len() && placed.contains_key(x) && 0 <= j
            < placed[x].len() && (w != x || i != j) ==> #[trigger] placed[w][i]
            != #[trigger] placed[x][j]
}

proof fn lemma_place_all_facts(
    outputs: Seq<TxOut>,
    lists: Map<WalletId, Seq<(TxPayout, u32)>>,
    order: Seq<WalletId>,
    n: nat,
    taken: Set<usize>,
)
    requires
        outputs.len() <= usize::MAX,
        order.no_duplicates(),
        n <= order.len(),
    ensures
        place_all(outputs, lists, order, n, taken) matches Some((placed, now_taken)) ==> {
            &&& placed.dom() == order.take(n as int).to_set()
            &&& taken.subset_of(now_taken)
            &&& well_placed(outputs, lists, taken, placed)
            &&& forall|w: WalletId, i: int|
                placed.contains_key(w) && 0 <= i < placed[w].len() ==> now_taken.contains(
                    #[trigger] placed[w][i],
                )
        },
    decreases n,
{
    if n == 0 {
        assert(order.take(0).to_set() =~= Set::empty());
    } else {
        lemma_place_all_facts(outputs, lists, order, (n - 1) as nat, taken);
        if let Some((placed, now_taken)) = place_all(
            outputs,
            lists,
            order,
            (n - 1) as nat,
            taken,
        ) {
            let wallet = order[n - 1];
            lemma_place_list_facts(outputs, lists[wallet], lists[wallet].len(), now_taken);
            let earlier = order.take(n - 1);
            let now = order.take(n as int);
            assert(now =~= earlier.push(wallet));
            assert(now.to_set() =~= earlier.to_set().insert(wallet)) by {
                assert forall|w: WalletId| #[trigger]
                    earlier.to_set().insert(wallet).contains(w) implies now.to_set().contains(w) by {
                    if w == wallet {
                        assert(now[n - 1] == w);
                    } else {
                        let k = choose|k: int| 0 <= k < earlier.len() && earlier[k] == w;
                        assert(now[k] == w);
                    }
                }
            }
            assert(!placed.contains_key(wallet)) by {
                if earlier.contains(wallet) {
                    let k = choose|k: int| 0 <= k < earlier.len() && earlier[k] == wallet;
                    assert(order[k] == wallet);
                }
            }
        }
    }
}

/// Giving out outputs gives each payout one that pays it and was not taken before,
/// and no two payouts the same.
pub proof fn lemma_placed_apart(
    outputs: Seq<TxOut>,
    lists: Map<WalletId, Seq<(TxPayout, u32)>>,
    order: Seq<WalletId>,
    taken: Set<usize>,
)
    requires
        outputs.len() <= usize::MAX,
        lists_once(order, lists.dom()),
    ensures
        place_all(outputs, lists, order, order.len(), taken) matches Some((placed, now_taken)) ==> {
            &&& placed.dom() == lists.dom()
            &&& well_placed(outputs, lists, taken, placed)
        },
{
    lemma_place_all_facts(outputs, lists, order, order.len(), taken);
    assert(order.take(order.len() as int) =~= order);
}

/// Where some order of the wallets gives each payout an output, every payout can
/// have an output of its own.
pub proof fn lemma_places_placeable(
    outputs: Seq<TxOut>,
    lists: Map<WalletId, Seq<(TxPayout, u32)>>,
    order: Seq<WalletId>,
    taken: Set<usize>,
)
    requires
        outputs.len() <= usize::MAX,
        lists_once(order, lists.dom()),
        place_all(outputs, lists, order, order.len(), taken) is Some,
    ensures
        placeable(outputs, lists, taken),
{
    lemma_placed_apart(outputs, lists, order, taken);
    let (placed, now_taken) = place_all(outputs, lists, order, order.len(), taken)->0;
    let slots = all_slots(lists);
    let placement = Map::new(
        |slot: Slot| slots.contains(slot),
        |slot: Slot| placed[slot.0][slot.1],
    );
    assert(is_placement(outputs, lists, slots, taken, placement));
}

/// The contents of a map of lists.
pub open spec fn lists_view<T>(lists: Map<u128, Vec<T>>) -> Map<u128, Seq<T>> {
    lists.map_values(|list: Vec<T>| list@)
}

/// The keys of a map, each once.
pub fn keys_of<V>(map: &HashMap<u128, V>) -> (res: Vec<u128>)
    ensures
        lists_once(res@, map@.dom()),
{
    let mut res: Vec<u128> = Vec::new();
    let keys = map.keys();
    let ghost listed: Seq<&u128> = keys.remaining();
    for key in iter: keys
        invariant
            iter.seq() == listed,
            res@ =~= listed.unref().take(iter.index()),
    {
        res.push(*key);
    }
    proof {
        assert(res@ =~= listed.unref());
        assert forall|i: int, j: int| 0 <= i < res@.len() && 0 <= j < res@.len() && i != j implies res@[i]
            != res@[j] by {
            assert(listed[i] != listed[j]);
        }
    }
    res
}

/// The outputs that the payouts of one wallet get, where there is one for each.
/// They are taken then.
fn place_wallet(
    outputs: &Vec<TxOut>,
    list: &Vec<(TxPayout, u32)>,
    taken: &mut HashSet<usize>,
) -> (res: Option<Vec<usize>>)
    ensures
        match place_list(outputs@, list@, list@.len(), old(taken)@) {
            Some((vouts, now_taken)) => res matches Some(found) && found@ == vouts && final(taken)@
                == now_taken,
            None => res is None,
        },
{
    let mut vouts: Vec<usize> = Vec::new();
    for i in 0..list.len()
        invariant
            place_list(outputs@, list@, i as nat, old(taken)@) == Some((vouts@, taken@)),
    {
        let script = list[i].0.1.script_pubkey();
        match search_output(outputs, taken, &script, list[i].0.2) {
            Some(vout) => {
                vouts.push(vout);
                taken.insert(vout);
            },
            None => {
                proof {
                    lemma_place_list_fails(
                        outputs@,
                        list@,
                        (i + 1) as nat,
                        list@.len(),
                        old(taken)@,
                    );
                }
                return None;
            },
        }
    }
    Some(vouts)
}

proof fn lemma_place_list_fails(
    outputs: Seq<TxOut>,
    list: Seq<(TxPayout, u32)>,
    n: nat,
    m: nat,
    taken: Set<usize>,
)
    requires
        n <= m,
        place_list(outputs, list, n, taken) is None,
    ensures
        place_list(outputs, list, m, taken) is None,
    decreases m,
{
    if n < m {
        lemma_place_list_fails(outputs, list, n, (m - 1) as nat, taken);
    }
}

proof fn lemma_place_all_fails(
    outputs: Seq<TxOut>,
    lists: Map<WalletId, Seq<(TxPayout, u32)>>,
    order: Seq<WalletId>,
    n: nat,
    m: nat,
    taken: Set<usize>,
)
    requires
        n <= m,
        place_all(outputs, lists, order, n, taken) is None,
    ensures
        place_all(outputs, lists, order, m, taken) is None,
    decreases m,
{
    if n < m {
        lemma_place_all_fails(outputs, lists, order, n, (m - 1) as nat, taken);
    }
}

/// Gives each payout the first output that pays it and is not taken. The wallets
/// have their turn in the order in which the map is walked, the payouts of a
/// wallet in the order in which they are listed.
///
/// There is a result exactly where each payout can have an output of its own.
pub fn place_payouts(
    outputs: &Vec<TxOut>,
    payouts: &HashMap<WalletId, Vec<(TxPayout, u32)>>,
    taken: HashSet<usize>,
) -> (res: Option<HashMap<WalletId, Vec<usize>>>)
    ensures
        res is Some <==> placeable(outputs@, lists_view(payouts@), taken@),
        res matches Some(placed) ==> exists|order: Seq<WalletId>|
            {
                &&& #[trigger] lists_once(order, payouts@.dom())
                &&& place_all(
                    outputs@,
                    lists_view(payouts@),
                    order,
                    order.len(),
                    taken@,
                ) matches Some(all) && all.0 == lists_view(placed@)
            },
{
    let order = keys_of(payouts);
    let ghost lists = lists_view(payouts@);
    let ghost at_first = taken@;
    let ghost count: nat = order@.len();
    let mut now_taken = taken;
    let mut placed: HashMap<WalletId, Vec<usize>> = HashMap::new();
    assert(lists_view(placed@) =~= Map::empty());
    assert(outputs.len() <= usize::MAX);
    assert(lists.dom() =~= payouts@.dom());
    for n in 0..order.len()
        invariant
            lists == lists_view(payouts@),
            lists_once(order@, payouts@.dom()),
            lists.dom() == payouts@.dom(),
            count == order@.len(),
            outputs@.len() <= usize::MAX,
            place_all(outputs@, lists, order@, n as nat, at_first) == Some(
                (lists_view(placed@), now_taken@),
            ),
            at_first == taken@,
    {
        let wallet = order[n];
        assert(order@.to_set().contains(wallet));
        let list = match payouts.get(&wallet) {
            Some(list) => list,
            None => {
                assert(false);
                return None;
            },
        };
        assert(list@ == lists[wallet]);
        match place_wallet(outputs, list, &mut now_taken) {
            Some(vouts) => {
                let ghost before = placed@;
                placed.insert(wallet, vouts);
                assert(lists_view(placed@) =~= lists_view(before).insert(wallet, vouts@));
            },
            None => {
                proof {
                    assert(place_all(outputs@, lists, order@, (n + 1) as nat, at_first) is None);
                    lemma_place_all_fails(
                        outputs@,
                        lists,
                        order@,
                        (n + 1) as nat,
                        count,
                        at_first,
                    );
                    if placeable(outputs@, lists, at_first) {
                        lemma_placeable_places(outputs@, lists, order@, at_first);
                    }
                }
                return None;
            },
        }
    }
    proof {
        lemma_places_placeable(outputs@, lists, order@, at_first);
    }
    Some(placed)
}

} // verus!
