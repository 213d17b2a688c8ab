//! In which order the outputs that a transaction spends are listed.

use vstd::prelude::*;

use crate::builder_model::BuilderView;
use crate::primitives::{KeychainId, OutPoint, WalletId};
use crate::psbt::{BuiltTx, Psbt, PsbtInput};
use crate::script::AddressInfo;
use crate::utxo_book::UtxoBookView;

verus! {

/// What is listed under keychain `keychain` of `wallet`: nothing if neither is known.
pub open spec fn listed(
    utxos: Map<WalletId, Map<KeychainId, Seq<OutPoint>>>,
    wallet: WalletId,
    keychain: KeychainId,
) -> Seq<OutPoint> {
    if utxos.contains_key(wallet) && utxos[wallet].contains_key(keychain) {
        utxos[wallet][keychain]
    } else {
        Seq::empty()
    }
}

/// The outputs that the inputs spend, in their order.
pub open spec fn outpoints_of(inputs: Seq<PsbtInput>) -> Seq<OutPoint> {
    inputs.map_values(|input: PsbtInput| input.previous_output)
}

/// The outputs that each of the transactions of one keychain spends.
pub open spec fn lists_of_keychain(
    psbts: Seq<(KeychainId, Psbt)>,
    keychain: KeychainId,
) -> Seq<Seq<OutPoint>> {
    psbts.filter(|entry: (KeychainId, Psbt)| entry.0 == keychain).map_values(
        |entry: (KeychainId, Psbt)| outpoints_of(entry.1.inputs@),
    )
}

/// The outputs that the transactions of one keychain spend, one transaction after the
/// other.
pub open spec fn outpoints_of_keychain(
    psbts: Seq<(KeychainId, Psbt)>,
    keychain: KeychainId,
) -> Seq<OutPoint> {
    lists_of_keychain(psbts, keychain).flatten()
}

proof fn lemma_inputs_in_order(
    book: UtxoBookView,
    wallet: WalletId,
    keychain: KeychainId,
    inputs: Seq<PsbtInput>,
    n: nat,
)
    requires
        n <= inputs.len(),
    ensures
        ({
            let now = book.include_inputs(wallet, keychain, inputs, n);
            &&& listed(now.utxos, wallet, keychain) == listed(book.utxos, wallet, keychain)
                + outpoints_of(inputs.take(n as int))
            &&& forall|w: WalletId, k: KeychainId|
                w != wallet || k != keychain ==> #[trigger] listed(now.utxos, w, k) == listed(
                    book.utxos,
                    w,
                    k,
                )
        }),
    decreases n,
{
    let before = listed(book.utxos, wallet, keychain);
    if n == 0 {
        assert(before + outpoints_of(inputs.take(0)) =~= before);
    } else {
        lemma_inputs_in_order(book, wallet, keychain, inputs, (n - 1) as nat);
        assert(outpoints_of(inputs.take(n as int)) =~= outpoints_of(inputs.take(n - 1)).push(
            inputs[n - 1].previous_output,
        ));
        let earlier = book.include_inputs(wallet, keychain, inputs, (n - 1) as nat);
        let now = book.include_inputs(wallet, keychain, inputs, n);
        assert(listed(now.utxos, wallet, keychain) == listed(
            earlier.utxos,
            wallet,
            keychain,
        ).push(inputs[n - 1].previous_output));
        assert(before + outpoints_of(inputs.take(n as int)) =~= (before + outpoints_of(
            inputs.take(n - 1),
        )).push(inputs[n - 1].previous_output));
        assert forall|w: WalletId, k: KeychainId|
            w != wallet || k != keychain implies #[trigger] listed(now.utxos, w, k) == listed(
            book.utxos,
            w,
            k,
        ) by {
            assert(listed(now.utxos, w, k) == listed(earlier.utxos, w, k));
        }
    }
}

/// The inputs of a transaction are listed in their order, behind what was listed of their
/// keychain; no other list changes.
pub proof fn law_inputs_are_listed_in_order(
    book: UtxoBookView,
    wallet: WalletId,
    keychain: KeychainId,
    inputs: Seq<PsbtInput>,
    other_wallet: WalletId,
    other_keychain: KeychainId,
)
    ensures
        ({
            let now = book.include_inputs(wallet, keychain, inputs, inputs.len());
            listed(now.utxos, other_wallet, other_keychain) == if other_wallet == wallet
                && other_keychain == keychain {
                listed(book.utxos, wallet, keychain) + outpoints_of(inputs)
            } else {
                listed(book.utxos, other_wallet, other_keychain)
            }
        }),
{
    lemma_inputs_in_order(book, wallet, keychain, inputs, inputs.len());
    assert(inputs.take(inputs.len() as int) =~= inputs);
}

proof fn lemma_psbts_in_order(
    book: UtxoBookView,
    wallet: WalletId,
    psbts: Seq<(KeychainId, Psbt)>,
    n: nat,
    w: WalletId,
    k: KeychainId,
)
    requires
        n <= psbts.len(),
    ensures
        listed(book.include_psbts(wallet, psbts, n).utxos, w, k) == if w == wallet {
            listed(book.utxos, w, k) + outpoints_of_keychain(psbts.take(n as int), k)
        } else {
            listed(book.utxos, w, k)
        },
    decreases n,
{
    reveal(Seq::filter);
    let lists = lists_of_keychain(psbts.take(n as int), k);
    lists.lemma_flatten_and_flatten_alt_are_equivalent();
    let before = listed(book.utxos, w, k);
    if n == 0 {
        assert(before + outpoints_of_keychain(psbts.take(0), k) =~= before);
    } else {
        lemma_psbts_in_order(book, wallet, psbts, (n - 1) as nat, w, k);
        let earlier = book.include_psbts(wallet, psbts, (n - 1) as nat);
        let (keychain, psbt) = psbts[n - 1];
        law_inputs_are_listed_in_order(earlier, wallet, keychain, psbt.inputs@, w, k);
        assert(psbts.take(n as int).drop_last() =~= psbts.take(n - 1));
        let lists_before = lists_of_keychain(psbts.take(n - 1), k);
        lists_before.lemma_flatten_and_flatten_alt_are_equivalent();
        if keychain == k {
            assert(lists =~= lists_before.push(outpoints_of(psbt.inputs@)));
            assert(lists.drop_last() =~= lists_before);
            assert(before + outpoints_of_keychain(psbts.take(n as int), k) =~= (before
                + outpoints_of_keychain(psbts.take(n - 1), k)) + outpoints_of(psbt.inputs@));
        } else {
            assert(lists =~= lists_before);
        }
    }
}

/// When payouts are committed, the inputs of the open drains are listed under the current
/// wallet and their keychains, drain after drain and input after input, behind what was
/// listed; no other list changes.
pub proof fn law_drained_inputs_are_listed_in_order(
    builder: BuilderView,
    n: int,
    wallet: WalletId,
    keychain: KeychainId,
)
    requires
        builder.current_wallet is Some,
    ensures
        listed(builder.committed(n).result.included_utxos, wallet, keychain) == if Some(wallet)
            == builder.current_wallet {
            listed(builder.result.included_utxos, wallet, keychain) + outpoints_of_keychain(
                builder.current_wallet_psbts,
                keychain,
            )
        } else {
            listed(builder.result.included_utxos, wallet, keychain)
        },
{
    let psbts = builder.current_wallet_psbts;
    lemma_psbts_in_order(
        builder.book(),
        builder.current_wallet->0,
        psbts,
        psbts.len(),
        wallet,
        keychain,
    );
    assert(psbts.take(psbts.len() as int) =~= psbts);
}

/// Are `added` those of the outputs that the first `n` inputs spend that are not in
/// `included`, each at the first input that spends it, in their order? `places` are those
/// inputs.
pub open spec fn are_the_new_ones(
    added: Seq<OutPoint>,
    included: Set<OutPoint>,
    inputs: Seq<PsbtInput>,
    n: int,
    places: Seq<int>,
) -> bool {
    &&& places.len() == added.len()
    &&& forall|p: int|
        0 <= p < places.len() ==> {
            &&& 0 <= #[trigger] places[p] < n
            &&& inputs[places[p]].previous_output == added[p]
            &&& !included.contains(added[p])
        }
    &&& forall|p: int, q: int|
        0 <= p < q < places.len() ==> #[trigger] places[p] < #[trigger] places[q]
    &&& forall|p: int, i: int|
        0 <= p < places.len() && 0 <= i < places[p] ==> (#[trigger] inputs[i]).previous_output
            != #[trigger] added[p]
    &&& forall|i: int|
        0 <= i < n && !included.contains((#[trigger] inputs[i]).previous_output)
            ==> added.contains(inputs[i].previous_output)
}

proof fn lemma_new_inputs_in_order(
    book: UtxoBookView,
    wallet: WalletId,
    keychain: KeychainId,
    inputs: Seq<PsbtInput>,
    n: nat,
) -> (res: (Seq<OutPoint>, Seq<int>))
    requires
        n <= inputs.len(),
    ensures
        ({
            let now = book.attribute_inputs(wallet, keychain, inputs, n);
            &&& are_the_new_ones(res.0, book.included, inputs, n as int, res.1)
            &&& listed(now.utxos, wallet, keychain) == listed(book.utxos, wallet, keychain)
                + res.0
            &&& forall|w: WalletId, k: KeychainId|
                w != wallet || k != keychain ==> #[trigger] listed(now.utxos, w, k) == listed(
                    book.utxos,
                    w,
                    k,
                )
            &&& forall|outpoint: OutPoint| #[trigger]
                now.included.contains(outpoint) <==> book.included.contains(outpoint)
                    || res.0.contains(outpoint)
        }),
    decreases n,
{
    let base = listed(book.utxos, wallet, keychain);
    if n == 0 {
        let none = Seq::<OutPoint>::empty();
        assert(base + none =~= base);
        (none, Seq::<int>::empty())
    } else {
        let (added, places) = lemma_new_inputs_in_order(
            book,
            wallet,
            keychain,
            inputs,
            (n - 1) as nat,
        );
        let before = book.attribute_inputs(wallet, keychain, inputs, (n - 1) as nat);
        let now = book.attribute_inputs(wallet, keychain, inputs, n);
        let outpoint = inputs[n - 1].previous_output;
        if before.included.contains(outpoint) {
            (added, places)
        } else {
            let more = added.push(outpoint);
            let more_places = places.push(n - 1);
            assert(listed(now.utxos, wallet, keychain) == listed(
                before.utxos,
                wallet,
                keychain,
            ).push(outpoint));
            assert(base + more =~= (base + added).push(outpoint));
            assert forall|w: WalletId, k: KeychainId|
                w != wallet || k != keychain implies #[trigger] listed(now.utxos, w, k) == listed(
                book.utxos,
                w,
                k,
            ) by {
                assert(listed(now.utxos, w, k) == listed(before.utxos, w, k));
            }
            assert(more[added.len() as int] == outpoint);
            assert forall|o: OutPoint| added.contains(o) implies #[trigger] more.contains(o) by {
                let p = choose|p: int| 0 <= p < added.len() && added[p] == o;
                assert(more[p] == o);
            }
            assert forall|o: OutPoint| #[trigger] more.contains(o) implies added.contains(o) || o
                == outpoint by {
                let p = choose|p: int| 0 <= p < more.len() && more[p] == o;
                if p < added.len() {
                    assert(added[p] == o);
                }
            }
            assert forall|o: OutPoint| #[trigger]
                now.included.contains(o) <==> book.included.contains(o) || more.contains(o) by {
                assert(before.included.contains(o) <==> book.included.contains(o)
                    || added.contains(o));
            }
            assert forall|p: int, i: int|
                0 <= p < more_places.len() && 0 <= i < more_places[p] implies (
            #[trigger] inputs[i]).previous_output != #[trigger] more[p] by {
                if p < added.len() {
                    assert(inputs[i].previous_output != added[p]);
                } else if inputs[i].previous_output == outpoint {
                    assert(!book.included.contains(outpoint));
                    assert(added.contains(inputs[i].previous_output));
                }
            }
            assert forall|i: int|
                0 <= i < n && !book.included.contains((#[trigger] inputs[i]).previous_output) implies
                more.contains(inputs[i].previous_output) by {
                if i < n - 1 {
                    assert(added.contains(inputs[i].previous_output));
                }
            }
            assert forall|p: int| 0 <= p < more_places.len() implies {
                &&& 0 <= #[trigger] more_places[p] < n
                &&& inputs[more_places[p]].previous_output == more[p]
                &&& !book.included.contains(more[p])
            } by {
                if p < added.len() {
                    assert(more_places[p] == places[p]);
                }
            }
            assert forall|p: int, q: int| 0 <= p < q < more_places.len() implies #[trigger] more_places[p]
                < #[trigger] more_places[q] by {
                assert(more_places[p] == places[p]);
            }
            (more, more_places)
        }
    }
}

/// When the transaction with the payouts of a wallet is built, those of its inputs that no
/// list has yet are listed under the current keychain of the wallet, in their order and
/// each once; no other list changes.
pub proof fn law_new_inputs_are_listed_in_order(
    builder: BuilderView,
    keychain: KeychainId,
    satisfaction_weight: usize,
    change_address: AddressInfo,
    output: int,
    built: BuiltTx,
) -> (res: (Seq<OutPoint>, Seq<int>))
    requires
        builder.current_wallet is Some,
    ensures
        ({
            let wallet = builder.current_wallet->0;
            let inputs = built.psbt.inputs@;
            let now = builder.completed(
                keychain,
                satisfaction_weight,
                change_address,
                output,
                built,
            ).result.included_utxos;
            let before = builder.result.included_utxos;
            &&& are_the_new_ones(
                res.0,
                builder.all_included_utxos,
                inputs,
                inputs.len() as int,
                res.1,
            )
            &&& listed(now, wallet, keychain) == listed(before, wallet, keychain) + res.0
            &&& forall|w: WalletId, k: KeychainId|
                w != wallet || k != keychain ==> #[trigger] listed(now, w, k) == listed(
                    before,
                    w,
                    k,
                )
        }),
{
    let inputs = built.psbt.inputs@;
    lemma_new_inputs_in_order(
        builder.book(),
        builder.current_wallet->0,
        keychain,
        inputs,
        inputs.len(),
    )
}

/// What a build counts as included grows by exactly the inputs of the drains when payouts
/// are committed, and by exactly the inputs of the transaction when it is built.
pub proof fn law_included_outpoints(
    builder: BuilderView,
    n: int,
    keychain: KeychainId,
    satisfaction_weight: usize,
    change_address: AddressInfo,
    output: int,
    built: BuiltTx,
    outpoint: OutPoint,
)
    requires
        builder.current_wallet is Some,
    ensures
        builder.committed(n).all_included_utxos.contains(outpoint)
            <==> builder.all_included_utxos.contains(outpoint) || exists|a: int, b: int|
            0 <= a < builder.current_wallet_psbts.len() && 0 <= b
                < builder.current_wallet_psbts[a].1.inputs@.len()
                && (#[trigger] builder.current_wallet_psbts[a].1.inputs@[b]).previous_output
                == outpoint,
        builder.completed(
            keychain,
            satisfaction_weight,
            change_address,
            output,
            built,
        ).all_included_utxos.contains(outpoint) <==> builder.all_included_utxos.contains(outpoint)
            || exists|b: int|
            0 <= b < built.psbt.inputs@.len()
                && (#[trigger] built.psbt.inputs@[b]).previous_output == outpoint,
{
    let inputs = built.psbt.inputs@;
    let (added, places) = lemma_new_inputs_in_order(
        builder.book(),
        builder.current_wallet->0,
        keychain,
        inputs,
        inputs.len(),
    );
    if added.contains(outpoint) {
        let p = choose|p: int| 0 <= p < added.len() && added[p] == outpoint;
        assert(inputs[places[p]].previous_output == outpoint);
    }
    let psbts = builder.current_wallet_psbts;
    lemma_included_by_psbts(
        builder.book(),
        builder.current_wallet->0,
        psbts,
        psbts.len(),
        outpoint,
    );
}

proof fn lemma_included_by_inputs(
    book: UtxoBookView,
    wallet: WalletId,
    keychain: KeychainId,
    inputs: Seq<PsbtInput>,
    n: nat,
    outpoint: OutPoint,
)
    requires
        n <= inputs.len(),
    ensures
        book.include_inputs(wallet, keychain, inputs, n).included.contains(outpoint)
            <==> book.included.contains(outpoint) || exists|b: int|
            0 <= b < n && (#[trigger] inputs[b]).previous_output == outpoint,
    decreases n,
{
    if n > 0 {
        lemma_included_by_inputs(book, wallet, keychain, inputs, (n - 1) as nat, outpoint);
        if inputs[n - 1].previous_output == outpoint {
            assert(inputs[n - 1].previous_output == outpoint);
        }
    }
}

proof fn lemma_included_by_psbts(
    book: UtxoBookView,
    wallet: WalletId,
    psbts: Seq<(KeychainId, Psbt)>,
    n: nat,
    outpoint: OutPoint,
)
    requires
        n <= psbts.len(),
    ensures
        book.include_psbts(wallet, psbts, n).included.contains(outpoint)
            <==> book.included.contains(outpoint) || exists|a: int, b: int|
            0 <= a < n && 0 <= b < psbts[a].1.inputs@.len()
                && (#[trigger] psbts[a].1.inputs@[b]).previous_output == outpoint,
    decreases n,
{
    if n > 0 {
        lemma_included_by_psbts(book, wallet, psbts, (n - 1) as nat, outpoint);
        let before = book.include_psbts(wallet, psbts, (n - 1) as nat);
        let inputs = psbts[n - 1].1.inputs@;
        lemma_included_by_inputs(
            before,
            wallet,
            psbts[n - 1].0,
            inputs,
            inputs.len(),
            outpoint,
        );
        if exists|b: int| 0 <= b < inputs.len() && (#[trigger] inputs[b]).previous_output
            == outpoint {
            let b = choose|b: int|
                0 <= b < inputs.len() && (#[trigger] inputs[b]).previous_output == outpoint;
            assert(psbts[n - 1].1.inputs@[b].previous_output == outpoint);
        }
    }
}

} // verus!
