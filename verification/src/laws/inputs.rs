//! What holds of the outputs that a transaction spends.

use vstd::prelude::*;

use super::spends_foreign;
use crate::builder_model::{foreign_psbts, BuilderView};
use crate::primitives::{KeychainId, OutPoint, WalletId};
use crate::psbt::{BuiltTx, Psbt, PsbtInput, TxPayout, TxPlanView};
use crate::script::AddressInfo;
use crate::utxo_book::{is_entry, lemma_attribute_inputs, lemma_include_psbts};
use crate::utxo_book::{lemma_include_utxo, UtxoBookView};

verus! {

/// Every input of a transaction that was built is in the book, and no output leaves
/// the book.
pub proof fn law_all_inputs_are_booked(
    builder: BuilderView,
    keychain: KeychainId,
    satisfaction_weight: usize,
    change_address: AddressInfo,
    output: int,
    built: BuiltTx,
)
    requires
        builder.current_wallet is Some,
        builder.book().consistent(),
    ensures
        ({
            let now = builder.completed(
                keychain,
                satisfaction_weight,
                change_address,
                output,
                built,
            );
            &&& builder.all_included_utxos.subset_of(now.all_included_utxos)
            &&& forall|i: int|
                0 <= i < built.psbt.inputs@.len() ==> now.all_included_utxos.contains(
                    (#[trigger] built.psbt.inputs@[i]).previous_output,
                )
        }),
{
    lemma_attribute_inputs(
        builder.book(),
        builder.current_wallet->0,
        keychain,
        built.psbt.inputs@,
        built.psbt.inputs@.len(),
    );
}

/// A new entry for an output that has none lists it once.
pub proof fn law_new_entry_lists_once(
    book: UtxoBookView,
    wallet: WalletId,
    keychain: KeychainId,
    outpoint: OutPoint,
)
    requires
        book.consistent(),
        book.lists_each_once(),
        !book.included.contains(outpoint),
    ensures
        book.include_utxo(wallet, keychain, outpoint).lists_each_once(),
{
    let now = book.include_utxo(wallet, keychain, outpoint);
    let place = book.of_keychain(wallet, keychain).len() as int;
    assert forall|w: WalletId, k: KeychainId, i: int, o: OutPoint| #[trigger]
        is_entry(now.utxos, w, k, i, o) implies is_entry(book.utxos, w, k, i, o) || (w == wallet && k
        == keychain && i == place && o == outpoint) by {}
    assert forall|w: WalletId, k: KeychainId, i: int| !#[trigger] is_entry(
        book.utxos,
        w,
        k,
        i,
        outpoint,
    ) by {
        if is_entry(book.utxos, w, k, i, outpoint) {
            assert(book.included.contains(outpoint));
        }
    }
}

/// The inputs of a transaction that was built are listed once each, under one
/// keychain of one wallet, where the book listed no output twice before.
pub proof fn law_inputs_are_listed_once(
    book: UtxoBookView,
    wallet: WalletId,
    keychain: KeychainId,
    inputs: Seq<PsbtInput>,
    n: nat,
)
    requires
        book.consistent(),
        book.lists_each_once(),
    ensures
        book.attribute_inputs(wallet, keychain, inputs, n).consistent(),
        book.attribute_inputs(wallet, keychain, inputs, n).lists_each_once(),
    decreases n,
{
    if n > 0 {
        law_inputs_are_listed_once(book, wallet, keychain, inputs, (n - 1) as nat);
        let before = book.attribute_inputs(wallet, keychain, inputs, (n - 1) as nat);
        let outpoint = inputs[n - 1].previous_output;
        if !before.included.contains(outpoint) {
            lemma_include_utxo(before, wallet, keychain, outpoint);
            law_new_entry_lists_once(before, wallet, keychain, outpoint);
        }
    }
}

/// Is `outpoint` spent by one of the first `n` inputs?
pub open spec fn is_spent(inputs: Seq<PsbtInput>, n: int, outpoint: OutPoint) -> bool {
    exists|i: int| 0 <= i < n && (#[trigger] inputs[i]).previous_output == outpoint
}

/// Is `outpoint` spent by one of the first `n` transactions?
pub open spec fn is_spent_by_psbts(
    psbts: Seq<(KeychainId, Psbt)>,
    n: int,
    outpoint: OutPoint,
) -> bool {
    exists|a: int|
        0 <= a < n && is_spent(
            (#[trigger] psbts[a]).1.inputs@,
            psbts[a].1.inputs@.len() as int,
            outpoint,
        )
}

/// Does no input spend what another one spends or what is in the book?
pub open spec fn inputs_are_new(book: UtxoBookView, inputs: Seq<PsbtInput>) -> bool {
    &&& forall|i: int|
        0 <= i < inputs.len() ==> !book.included.contains((#[trigger] inputs[i]).previous_output)
    &&& forall|i: int, j: int|
        0 <= i < j < inputs.len() ==> (#[trigger] inputs[i]).previous_output
            != (#[trigger] inputs[j]).previous_output
}

/// Does no input of the transactions spend what another one spends or what is in
/// the book?
pub open spec fn psbts_are_new(book: UtxoBookView, psbts: Seq<(KeychainId, Psbt)>) -> bool {
    &&& forall|a: int|
        0 <= a < psbts.len() ==> inputs_are_new(book, (#[trigger] psbts[a]).1.inputs@)
    &&& forall|a: int, b: int, outpoint: OutPoint|
        #![trigger psbts[a], psbts[b], is_spent(psbts[b].1.inputs@, psbts[b].1.inputs@.len() as int, outpoint)]
        0 <= a < b < psbts.len() && is_spent(
            psbts[b].1.inputs@,
            psbts[b].1.inputs@.len() as int,
            outpoint,
        ) ==> !is_spent(psbts[a].1.inputs@, psbts[a].1.inputs@.len() as int, outpoint)
}

proof fn lemma_included_inputs(
    book: UtxoBookView,
    wallet: WalletId,
    keychain: KeychainId,
    inputs: Seq<PsbtInput>,
    n: nat,
)
    requires
        n <= inputs.len(),
        book.consistent(),
        book.lists_each_once(),
        inputs_are_new(book, inputs),
    ensures
        ({
            let now = book.include_inputs(wallet, keychain, inputs, n);
            &&& now.consistent()
            &&& now.lists_each_once()
            &&& forall|outpoint: OutPoint| #[trigger]
                now.included.contains(outpoint) <==> book.included.contains(outpoint) || is_spent(
                    inputs,
                    n as int,
                    outpoint,
                )
        }),
    decreases n,
{
    if n > 0 {
        lemma_included_inputs(book, wallet, keychain, inputs, (n - 1) as nat);
        let before = book.include_inputs(wallet, keychain, inputs, (n - 1) as nat);
        let now = book.include_inputs(wallet, keychain, inputs, n);
        let last = inputs[n - 1].previous_output;
        assert(!before.included.contains(last)) by {
            if is_spent(inputs, n - 1, last) {
                let i = choose|i: int| 0 <= i < n - 1 && (#[trigger] inputs[i]).previous_output == last;
                assert(inputs[i].previous_output != inputs[n - 1].previous_output);
            }
        }
        lemma_include_utxo(before, wallet, keychain, last);
        law_new_entry_lists_once(before, wallet, keychain, last);
        assert forall|outpoint: OutPoint| #[trigger]
            now.included.contains(outpoint) <==> book.included.contains(outpoint) || is_spent(
                inputs,
                n as int,
                outpoint,
            ) by {
            if is_spent(inputs, n - 1, outpoint) {
                let i = choose|i: int|
                    0 <= i < n - 1 && (#[trigger] inputs[i]).previous_output == outpoint;
                assert(inputs[i].previous_output == outpoint);
            }
            if outpoint == last {
                assert(inputs[n - 1].previous_output == outpoint);
            }
            if is_spent(inputs, n as int, outpoint) && outpoint != last {
                let i = choose|i: int|
                    0 <= i < n && (#[trigger] inputs[i]).previous_output == outpoint;
                assert(is_spent(inputs, n - 1, outpoint));
            }
        }
    }
}

/// What the deprecated keychains of a wallet give is listed once each, where the
/// book listed no output twice before and no two of the inputs spend the same.
pub proof fn law_drained_inputs_are_listed_once(
    book: UtxoBookView,
    wallet: WalletId,
    psbts: Seq<(KeychainId, Psbt)>,
    n: nat,
)
    requires
        n <= psbts.len(),
        book.consistent(),
        book.lists_each_once(),
        psbts_are_new(book, psbts),
    ensures
        ({
            let now = book.include_psbts(wallet, psbts, n);
            &&& now.consistent()
            &&& now.lists_each_once()
            &&& forall|outpoint: OutPoint| #[trigger]
                now.included.contains(outpoint) <==> book.included.contains(outpoint)
                    || is_spent_by_psbts(psbts, n as int, outpoint)
        }),
    decreases n,
{
    if n > 0 {
        law_drained_inputs_are_listed_once(book, wallet, psbts, (n - 1) as nat);
        let before = book.include_psbts(wallet, psbts, (n - 1) as nat);
        let now = book.include_psbts(wallet, psbts, n);
        let keychain = psbts[n - 1].0;
        let inputs = psbts[n - 1].1.inputs@;
        let count = inputs.len() as int;
        assert(inputs_are_new(book, psbts[n - 1].1.inputs@));
        assert forall|i: int| 0 <= i < inputs.len() implies !before.included.contains(
            (#[trigger] inputs[i]).previous_output,
        ) by {
            let outpoint = inputs[i].previous_output;
            assert(is_spent(inputs, count, outpoint));
            if is_spent_by_psbts(psbts, n - 1, outpoint) {
                let a = choose|a: int|
                    0 <= a < n - 1 && is_spent(
                        (#[trigger] psbts[a]).1.inputs@,
                        psbts[a].1.inputs@.len() as int,
                        outpoint,
                    );
                assert(!is_spent(
                    psbts[a].1.inputs@,
                    psbts[a].1.inputs@.len() as int,
                    outpoint,
                ));
            }
        }
        lemma_included_inputs(before, wallet, keychain, inputs, inputs.len());
        assert forall|outpoint: OutPoint| #[trigger]
            now.included.contains(outpoint) <==> book.included.contains(outpoint)
                || is_spent_by_psbts(psbts, n as int, outpoint) by {
            if is_spent_by_psbts(psbts, n - 1, outpoint) {
                let a = choose|a: int|
                    0 <= a < n - 1 && is_spent(
                        (#[trigger] psbts[a]).1.inputs@,
                        psbts[a].1.inputs@.len() as int,
                        outpoint,
                    );
                assert(is_spent(psbts[a].1.inputs@, psbts[a].1.inputs@.len() as int, outpoint));
            }
            if is_spent(inputs, count, outpoint) {
                assert(is_spent(
                    psbts[n - 1].1.inputs@,
                    psbts[n - 1].1.inputs@.len() as int,
                    outpoint,
                ));
            }
            if is_spent_by_psbts(psbts, n as int, outpoint) && !is_spent(inputs, count, outpoint) {
                let a = choose|a: int|
                    0 <= a < n && is_spent(
                        (#[trigger] psbts[a]).1.inputs@,
                        psbts[a].1.inputs@.len() as int,
                        outpoint,
                    );
                assert(is_spent_by_psbts(psbts, n - 1, outpoint));
            }
        }
    }
}

/// Was `outpoint` spent by one of the first `n` transactions, as one of `keychain`?
pub open spec fn is_drained_from(
    psbts: Seq<(KeychainId, Psbt)>,
    n: int,
    keychain: KeychainId,
    outpoint: OutPoint,
) -> bool {
    exists|a: int|
        0 <= a < n && (#[trigger] psbts[a]).0 == keychain && is_spent(
            psbts[a].1.inputs@,
            psbts[a].1.inputs@.len() as int,
            outpoint,
        )
}

/// One more entry leaves the others where they are.
proof fn lemma_entries_of_utxo(
    book: UtxoBookView,
    wallet: WalletId,
    keychain: KeychainId,
    outpoint: OutPoint,
)
    ensures
        ({
            let now = book.include_utxo(wallet, keychain, outpoint);
            &&& book.kept_in(now)
            &&& now.lists_under(wallet, keychain, outpoint)
            &&& forall|w: WalletId, k: KeychainId, i: int, o: OutPoint| #[trigger]
                is_entry(now.utxos, w, k, i, o) ==> is_entry(book.utxos, w, k, i, o) || (w == wallet
                    && k == keychain && o == outpoint)
        }),
{
    let now = book.include_utxo(wallet, keychain, outpoint);
    let place = book.of_keychain(wallet, keychain).len() as int;
    assert(is_entry(now.utxos, wallet, keychain, place, outpoint));
}

/// Entries for inputs, one by one.
proof fn lemma_entries_of_inputs(
    book: UtxoBookView,
    wallet: WalletId,
    keychain: KeychainId,
    inputs: Seq<PsbtInput>,
    n: nat,
)
    requires
        n <= inputs.len(),
    ensures
        ({
            let now = book.include_inputs(wallet, keychain, inputs, n);
            &&& book.kept_in(now)
            &&& forall|i: int|
                0 <= i < n ==> now.lists_under(
                    wallet,
                    keychain,
                    (#[trigger] inputs[i]).previous_output,
                )
            &&& forall|w: WalletId, k: KeychainId, i: int, o: OutPoint| #[trigger]
                is_entry(now.utxos, w, k, i, o) ==> is_entry(book.utxos, w, k, i, o) || (w == wallet
                    && k == keychain && is_spent(inputs, n as int, o))
        }),
    decreases n,
{
    if n > 0 {
        lemma_entries_of_inputs(book, wallet, keychain, inputs, (n - 1) as nat);
        let before = book.include_inputs(wallet, keychain, inputs, (n - 1) as nat);
        let now = book.include_inputs(wallet, keychain, inputs, n);
        let last = inputs[n - 1].previous_output;
        lemma_entries_of_utxo(before, wallet, keychain, last);
        assert forall|i: int| 0 <= i < n implies now.lists_under(
            wallet,
            keychain,
            (#[trigger] inputs[i]).previous_output,
        ) by {
            if i < n - 1 {
                let o = inputs[i].previous_output;
                assert(before.lists_under(wallet, keychain, o));
                let j = choose|j: int| #[trigger] is_entry(before.utxos, wallet, keychain, j, o);
                assert(is_entry(now.utxos, wallet, keychain, j, o));
            }
        }
        assert forall|w: WalletId, k: KeychainId, i: int, o: OutPoint| #[trigger]
            is_entry(now.utxos, w, k, i, o) && !is_entry(book.utxos, w, k, i, o) implies w == wallet
            && k == keychain && is_spent(inputs, n as int, o) by {
            if is_entry(before.utxos, w, k, i, o) {
                let j = choose|j: int|
                    0 <= j < n - 1 && (#[trigger] inputs[j]).previous_output == o;
                assert(inputs[j].previous_output == o);
            } else {
                assert(inputs[n - 1].previous_output == o);
            }
        }
    }
}

/// Entries for the inputs of transactions, one transaction after the other.
pub proof fn lemma_entries_of_psbts(
    book: UtxoBookView,
    wallet: WalletId,
    psbts: Seq<(KeychainId, Psbt)>,
    n: nat,
)
    requires
        n <= psbts.len(),
    ensures
        ({
            let now = book.include_psbts(wallet, psbts, n);
            &&& book.kept_in(now)
            &&& forall|k: KeychainId, o: OutPoint| #[trigger]
                is_drained_from(psbts, n as int, k, o) ==> now.lists_under(wallet, k, o)
            &&& forall|w: WalletId, k: KeychainId, i: int, o: OutPoint| #[trigger]
                is_entry(now.utxos, w, k, i, o) ==> is_entry(book.utxos, w, k, i, o) || (w == wallet
                    && is_drained_from(psbts, n as int, k, o))
        }),
    decreases n,
{
    if n > 0 {
        lemma_entries_of_psbts(book, wallet, psbts, (n - 1) as nat);
        let before = book.include_psbts(wallet, psbts, (n - 1) as nat);
        let now = book.include_psbts(wallet, psbts, n);
        let (keychain, psbt) = psbts[n - 1];
        let inputs = psbt.inputs@;
        lemma_entries_of_inputs(before, wallet, keychain, inputs, inputs.len());
        assert forall|k: KeychainId, o: OutPoint| #[trigger]
            is_drained_from(psbts, n as int, k, o) implies now.lists_under(wallet, k, o) by {
            let a = choose|a: int|
                0 <= a < n && (#[trigger] psbts[a]).0 == k && is_spent(
                    psbts[a].1.inputs@,
                    psbts[a].1.inputs@.len() as int,
                    o,
                );
            if a < n - 1 {
                assert(is_drained_from(psbts, n - 1, k, o));
                let j = choose|j: int| #[trigger] is_entry(before.utxos, wallet, k, j, o);
                assert(is_entry(now.utxos, wallet, k, j, o));
            } else {
                let i = choose|i: int|
                    0 <= i < inputs.len() && (#[trigger] inputs[i]).previous_output == o;
                assert(now.lists_under(wallet, keychain, inputs[i].previous_output));
            }
        }
        assert forall|w: WalletId, k: KeychainId, i: int, o: OutPoint| #[trigger]
            is_entry(now.utxos, w, k, i, o) && !is_entry(book.utxos, w, k, i, o) implies w == wallet
            && is_drained_from(psbts, n as int, k, o) by {
            if is_entry(before.utxos, w, k, i, o) {
                let a = choose|a: int|
                    0 <= a < n - 1 && (#[trigger] psbts[a]).0 == k && is_spent(
                        psbts[a].1.inputs@,
                        psbts[a].1.inputs@.len() as int,
                        o,
                    );
                assert(psbts[a].0 == k);
            } else {
                assert(psbts[n - 1].0 == k);
            }
        }
    }
}

/// Entries for the inputs that had none, one by one.
pub proof fn lemma_entries_of_new_inputs(
    book: UtxoBookView,
    wallet: WalletId,
    keychain: KeychainId,
    inputs: Seq<PsbtInput>,
    n: nat,
)
    requires
        n <= inputs.len(),
    ensures
        ({
            let now = book.attribute_inputs(wallet, keychain, inputs, n);
            &&& book.kept_in(now)
            &&& forall|w: WalletId, k: KeychainId, i: int, o: OutPoint| #[trigger]
                is_entry(now.utxos, w, k, i, o) ==> is_entry(book.utxos, w, k, i, o) || (w == wallet
                    && k == keychain && is_spent(inputs, n as int, o) && !book.included.contains(o))
            &&& forall|o: OutPoint| #[trigger]
                now.included.contains(o) <==> book.included.contains(o) || is_spent(
                    inputs,
                    n as int,
                    o,
                )
            &&& forall|i: int|
                0 <= i < n && !book.included.contains(
                    (#[trigger] inputs[i]).previous_output,
                ) ==> now.lists_under(wallet, keychain, inputs[i].previous_output)
        }),
    decreases n,
{
    if n > 0 {
        lemma_entries_of_new_inputs(book, wallet, keychain, inputs, (n - 1) as nat);
        let before = book.attribute_inputs(wallet, keychain, inputs, (n - 1) as nat);
        let now = book.attribute_inputs(wallet, keychain, inputs, n);
        let last = inputs[n - 1].previous_output;
        lemma_entries_of_utxo(before, wallet, keychain, last);
        assert forall|o: OutPoint| is_spent(inputs, n as int, o) <==> #[trigger] is_spent(
            inputs,
            n - 1,
            o,
        ) || o == last by {
            if is_spent(inputs, n - 1, o) {
                let j = choose|j: int|
                    0 <= j < n - 1 && (#[trigger] inputs[j]).previous_output == o;
                assert(inputs[j].previous_output == o);
            }
            if o == last {
                assert(inputs[n - 1].previous_output == o);
            }
            if is_spent(inputs, n as int, o) && o != last {
                let j = choose|j: int| 0 <= j < n && (#[trigger] inputs[j]).previous_output == o;
                assert(j < n - 1);
            }
        }
        assert forall|o: OutPoint| #[trigger]
            now.included.contains(o) <==> book.included.contains(o) || is_spent(
                inputs,
                n as int,
                o,
            ) by {
            assert(before.included.contains(o) <==> book.included.contains(o) || is_spent(
                inputs,
                n - 1,
                o,
            ));
        }
        assert forall|i: int|
            0 <= i < n && !book.included.contains(
                (#[trigger] inputs[i]).previous_output,
            ) implies now.lists_under(wallet, keychain, inputs[i].previous_output) by {
            let o = inputs[i].previous_output;
            if before.included.contains(o) {
                assert(is_spent(inputs, n - 1, o));
                let j = choose|j: int|
                    0 <= j < n - 1 && (#[trigger] inputs[j]).previous_output == o;
                assert(before.lists_under(wallet, keychain, inputs[j].previous_output));
                let e = choose|e: int| #[trigger] is_entry(before.utxos, wallet, keychain, e, o);
                assert(is_entry(now.utxos, wallet, keychain, e, o));
            } else {
                if i < n - 1 {
                    assert(is_spent(inputs, n - 1, o));
                }
                assert(o == last);
            }
        }
    }
}

/// What deprecated keychains gave is among the inputs that a plan has to have.
pub proof fn lemma_drained_are_foreign(
    weights: Map<OutPoint, usize>,
    psbts: Seq<(KeychainId, Psbt)>,
    n: nat,
    outpoint: OutPoint,
)
    requires
        n <= psbts.len(),
    ensures
        is_spent_by_psbts(psbts, n as int, outpoint) <==> exists|i: int|
            0 <= i < foreign_psbts(weights, psbts, n).len() && (#[trigger] foreign_psbts(
                weights,
                psbts,
                n,
            )[i]).outpoint == outpoint,
    decreases n,
{
    let all = foreign_psbts(weights, psbts, n);
    if n > 0 {
        lemma_drained_are_foreign(weights, psbts, (n - 1) as nat, outpoint);
        let before = foreign_psbts(weights, psbts, (n - 1) as nat);
        let inputs = psbts[n - 1].1.inputs@;
        if is_spent_by_psbts(psbts, n as int, outpoint) {
            let a = choose|a: int|
                0 <= a < n && is_spent(
                    (#[trigger] psbts[a]).1.inputs@,
                    psbts[a].1.inputs@.len() as int,
                    outpoint,
                );
            if a < n - 1 {
                assert(is_spent_by_psbts(psbts, n - 1, outpoint));
                let i = choose|i: int|
                    0 <= i < before.len() && (#[trigger] before[i]).outpoint == outpoint;
                assert(all[i].outpoint == outpoint);
            } else {
                let i = choose|i: int|
                    0 <= i < inputs.len() && (#[trigger] inputs[i]).previous_output == outpoint;
                assert(all[before.len() + i].outpoint == outpoint);
            }
        }
        if exists|i: int| 0 <= i < all.len() && (#[trigger] all[i]).outpoint == outpoint {
            let i = choose|i: int|
                0 <= i < all.len() && (#[trigger] all[i]).outpoint == outpoint;
            if i < before.len() {
                assert(before[i].outpoint == outpoint);
                let a = choose|a: int|
                    0 <= a < n - 1 && is_spent(
                        (#[trigger] psbts[a]).1.inputs@,
                        psbts[a].1.inputs@.len() as int,
                        outpoint,
                    );
                assert(is_spent(psbts[a].1.inputs@, psbts[a].1.inputs@.len() as int, outpoint));
            } else {
                assert(inputs[i - before.len()].previous_output == outpoint);
                assert(is_spent(
                    psbts[n - 1].1.inputs@,
                    psbts[n - 1].1.inputs@.len() as int,
                    outpoint,
                ));
            }
        }
    }
}

/// Is `outpoint` an input of the transaction built so far?
pub open spec fn is_input_so_far(builder: BuilderView, outpoint: OutPoint) -> bool {
    builder.result.psbt matches Some(psbt) && is_spent(
        psbt.inputs@,
        psbt.inputs@.len() as int,
        outpoint,
    )
}

/// The inputs that a build has to have are those of the deprecated keychains and
/// those of the transaction built so far.
proof fn lemma_foreign_of_build(
    builder: BuilderView,
    keychain: KeychainId,
    n: int,
    change_script: Seq<u8>,
    outpoint: OutPoint,
)
    ensures
        spends_foreign(builder.build_plan(keychain, n, change_script), outpoint)
            <==> is_spent_by_psbts(
            builder.current_wallet_psbts,
            builder.current_wallet_psbts.len() as int,
            outpoint,
        ) || is_input_so_far(builder, outpoint),
{
    let plan = builder.build_plan(keychain, n, change_script);
    let psbts = builder.current_wallet_psbts;
    let drained = foreign_psbts(builder.input_weights, psbts, psbts.len());
    lemma_drained_are_foreign(builder.input_weights, psbts, psbts.len(), outpoint);
    if is_spent_by_psbts(psbts, psbts.len() as int, outpoint) {
        let i = choose|i: int|
            0 <= i < drained.len() && (#[trigger] drained[i]).outpoint == outpoint;
        assert(plan.foreign_utxos[i].outpoint == outpoint);
    }
    if is_input_so_far(builder, outpoint) {
        let inputs = builder.result.psbt->0.inputs@;
        let i = choose|i: int|
            0 <= i < inputs.len() && (#[trigger] inputs[i]).previous_output == outpoint;
        assert(plan.foreign_utxos[drained.len() + i].outpoint == outpoint);
    }
    if spends_foreign(plan, outpoint) {
        let i = choose|i: int|
            0 <= i < plan.foreign_utxos.len() && (#[trigger] plan.foreign_utxos[i]).outpoint
                == outpoint;
        if i < drained.len() {
            assert(drained[i].outpoint == outpoint);
        } else {
            let inputs = builder.result.psbt->0.inputs@;
            assert(inputs[i - drained.len()].previous_output == outpoint);
        }
    }
}

/// Has the transaction all inputs that the plan asks for?
pub open spec fn keeps_foreign(plan: TxPlanView, inputs: Seq<PsbtInput>) -> bool {
    forall|outpoint: OutPoint| #[trigger]
        spends_foreign(plan, outpoint) ==> is_spent(inputs, inputs.len() as int, outpoint)
}

/// Does the transaction spend nothing that the plan forbids, but for inputs that the
/// plan itself asks for?
pub open spec fn keeps_off_reserved(plan: TxPlanView, inputs: Seq<PsbtInput>) -> bool {
    forall|i: int|
        0 <= i < inputs.len() && plan.unspendable.contains(
            (#[trigger] inputs[i]).previous_output,
        ) ==> spends_foreign(plan, inputs[i].previous_output)
}

/// Does the book list the inputs of the transaction built so far, each once, and
/// nothing else?
pub open spec fn lists_the_transaction(builder: BuilderView) -> bool {
    &&& builder.book().consistent()
    &&& builder.book().lists_each_once()
    &&& forall|outpoint: OutPoint| #[trigger]
        builder.all_included_utxos.contains(outpoint) <==> is_input_so_far(builder, outpoint)
}

/// A build starts with an empty book, and no transaction.
pub proof fn law_book_lists_the_transaction_at_first()
    ensures
        lists_the_transaction(BuilderView::initial()),
{
}

/// Until the transaction with the payouts of one more wallet is built, neither it nor
/// the book changes.
pub proof fn law_book_stays_until_built(
    builder: BuilderView,
    wallet: WalletId,
    payouts: Seq<TxPayout>,
    keychain: KeychainId,
    satisfaction_weight: usize,
    psbt: Psbt,
)
    requires
        lists_the_transaction(builder),
    ensures
        lists_the_transaction(builder.between_wallets()),
        lists_the_transaction(builder.for_wallet(wallet, payouts)),
        lists_the_transaction(builder.drained(keychain, satisfaction_weight, psbt)),
{
    assert(builder.between_wallets().book() == builder.book());
    assert(builder.for_wallet(wallet, payouts).book() == builder.book());
    assert(builder.drained(keychain, satisfaction_weight, psbt).book() == builder.book());
    assert forall|outpoint: OutPoint|
        is_input_so_far(builder, outpoint) == is_input_so_far(
            builder.between_wallets(),
            outpoint,
        ) by {}
}

/// When the transaction with the payouts of a wallet is built, and has all inputs that
/// were asked for, the book lists its inputs, each once, and nothing else. What was
/// listed stays where it was, what a deprecated keychain gave is listed under it, and
/// all other inputs are listed under the keychain that was visited. No two
/// transactions of deprecated keychains may spend the same output, nor one that is
/// listed already.
pub proof fn law_book_lists_the_transaction(
    builder: BuilderView,
    n: int,
    keychain: KeychainId,
    satisfaction_weight: usize,
    change_address: AddressInfo,
    output: int,
    built: BuiltTx,
)
    requires
        builder.current_wallet is Some,
        lists_the_transaction(builder),
        psbts_are_new(builder.book(), builder.current_wallet_psbts),
        keeps_foreign(
            builder.build_plan(keychain, n, change_address.address.script()),
            built.psbt.inputs@,
        ),
    ensures
        ({
            let wallet = builder.current_wallet->0;
            let psbts = builder.current_wallet_psbts;
            let inputs = built.psbt.inputs@;
            let now = builder.committed(n).completed(
                keychain,
                satisfaction_weight,
                change_address,
                output,
                built,
            );
            &&& lists_the_transaction(now)
            &&& builder.book().kept_in(now.book())
            &&& forall|k: KeychainId, o: OutPoint| #[trigger]
                is_drained_from(psbts, psbts.len() as int, k, o) ==> now.book().lists_under(
                    wallet,
                    k,
                    o,
                )
            &&& forall|i: int|
                0 <= i < inputs.len() ==> {
                    let o = (#[trigger] inputs[i]).previous_output;
                    ||| is_input_so_far(builder, o)
                    ||| is_spent_by_psbts(psbts, psbts.len() as int, o)
                    ||| now.book().lists_under(wallet, keychain, o)
                }
        }),
{
    let wallet = builder.current_wallet->0;
    let psbts = builder.current_wallet_psbts;
    let inputs = built.psbt.inputs@;
    let plan = builder.build_plan(keychain, n, change_address.address.script());
    let book = builder.book();
    let mid = book.include_psbts(wallet, psbts, psbts.len());
    let end = mid.attribute_inputs(wallet, keychain, inputs, inputs.len());
    let now = builder.committed(n).completed(
        keychain,
        satisfaction_weight,
        change_address,
        output,
        built,
    );
    assert(builder.committed(n).book() == mid);
    assert(now.book() == end);
    law_drained_inputs_are_listed_once(book, wallet, psbts, psbts.len());
    lemma_entries_of_psbts(book, wallet, psbts, psbts.len());
    law_inputs_are_listed_once(mid, wallet, keychain, inputs, inputs.len());
    lemma_entries_of_new_inputs(mid, wallet, keychain, inputs, inputs.len());
    assert forall|o: OutPoint| #[trigger]
        now.all_included_utxos.contains(o) <==> is_input_so_far(now, o) by {
        lemma_foreign_of_build(builder, keychain, n, change_address.address.script(), o);
        assert(mid.included.contains(o) <==> book.included.contains(o) || is_spent_by_psbts(
            psbts,
            psbts.len() as int,
            o,
        ));
        assert(end.included.contains(o) <==> mid.included.contains(o) || is_spent(
            inputs,
            inputs.len() as int,
            o,
        ));
        if spends_foreign(plan, o) {
            assert(is_spent(inputs, inputs.len() as int, o));
        }
    }
    assert forall|k: KeychainId, o: OutPoint| #[trigger]
        is_drained_from(psbts, psbts.len() as int, k, o) implies end.lists_under(wallet, k, o) by {
        let i = choose|i: int| #[trigger] is_entry(mid.utxos, wallet, k, i, o);
        assert(is_entry(end.utxos, wallet, k, i, o));
    }
    assert(book.kept_in(end));
}

/// Is `outpoint` spent nowhere as an output of `keychain`: not in the book, and not by
/// a transaction of the deprecated keychain?
pub open spec fn spares(builder: BuilderView, keychain: KeychainId, outpoint: OutPoint) -> bool {
    &&& forall|wallet: WalletId, i: int| !#[trigger] is_entry(
        builder.result.included_utxos,
        wallet,
        keychain,
        i,
        outpoint,
    )
    &&& !is_drained_from(
        builder.current_wallet_psbts,
        builder.current_wallet_psbts.len() as int,
        keychain,
        outpoint,
    )
}

/// Is `outpoint` reserved of `keychain`?
pub open spec fn is_reserved(
    builder: BuilderView,
    keychain: KeychainId,
    outpoint: OutPoint,
) -> bool {
    builder.reserved_of(keychain).contains(outpoint)
}

/// A build starts with nothing spent.
pub proof fn law_reserved_utxos_are_spared_at_first(keychain: KeychainId, outpoint: OutPoint)
    ensures
        spares(BuilderView::initial(), keychain, outpoint),
{
}

/// The visit of a deprecated keychain never spends what is reserved of a keychain as
/// an output of that keychain, where its wallet keeps to the plan. What is reserved
/// of other keychains than the visited one does not matter.
pub proof fn law_drains_spare_reserved_utxos(
    builder: BuilderView,
    visited: KeychainId,
    satisfaction_weight: usize,
    drain_script: Seq<u8>,
    psbt: Psbt,
    keychain: KeychainId,
    outpoint: OutPoint,
)
    requires
        is_reserved(builder, keychain, outpoint),
        spares(builder, keychain, outpoint),
        keeps_off_reserved(builder.drain_plan(visited, drain_script), psbt.inputs@),
    ensures
        spares(
            builder.drained(visited, satisfaction_weight, psbt),
            keychain,
            outpoint,
        ),
{
    let now = builder.drained(visited, satisfaction_weight, psbt);
    let psbts = now.current_wallet_psbts;
    if is_drained_from(psbts, psbts.len() as int, keychain, outpoint) {
        let a = choose|a: int|
            0 <= a < psbts.len() && (#[trigger] psbts[a]).0 == keychain && is_spent(
                psbts[a].1.inputs@,
                psbts[a].1.inputs@.len() as int,
                outpoint,
            );
        if a < psbts.len() - 1 {
            assert(builder.current_wallet_psbts[a] == psbts[a]);
        } else {
            let inputs = psbt.inputs@;
            let i = choose|i: int|
                0 <= i < inputs.len() && (#[trigger] inputs[i]).previous_output == outpoint;
            assert(spends_foreign(
                builder.drain_plan(visited, drain_script),
                inputs[i].previous_output,
            ));
        }
    }
}

/// The visit of a current keychain never spends what is reserved of a keychain as an
/// output of that keychain, where its wallet keeps to the plan. What is reserved of
/// other keychains than the visited one does not matter.
pub proof fn law_builds_spare_reserved_utxos(
    builder: BuilderView,
    n: int,
    visited: KeychainId,
    satisfaction_weight: usize,
    change_address: AddressInfo,
    output: int,
    built: BuiltTx,
    keychain: KeychainId,
    outpoint: OutPoint,
)
    requires
        builder.ready_for_wallet(),
        is_reserved(builder, keychain, outpoint),
        spares(builder, keychain, outpoint),
        keeps_off_reserved(
            builder.build_plan(visited, n, change_address.address.script()),
            built.psbt.inputs@,
        ),
    ensures
        spares(
            builder.committed(n).completed(
                visited,
                satisfaction_weight,
                change_address,
                output,
                built,
            ),
            keychain,
            outpoint,
        ),
{
    let wallet = builder.current_wallet->0;
    let psbts = builder.current_wallet_psbts;
    let inputs = built.psbt.inputs@;
    let plan = builder.build_plan(visited, n, change_address.address.script());
    let book = builder.book();
    let mid = book.include_psbts(wallet, psbts, psbts.len());
    let end = mid.attribute_inputs(wallet, visited, inputs, inputs.len());
    let now = builder.committed(n).completed(
        visited,
        satisfaction_weight,
        change_address,
        output,
        built,
    );
    assert(builder.committed(n).book() == mid);
    assert(now.book() == end);
    lemma_include_psbts(book, wallet, psbts, psbts.len());
    lemma_entries_of_psbts(book, wallet, psbts, psbts.len());
    lemma_entries_of_new_inputs(mid, wallet, visited, inputs, inputs.len());
    assert forall|w: WalletId, i: int| !#[trigger] is_entry(
        now.result.included_utxos,
        w,
        keychain,
        i,
        outpoint,
    ) by {
        if is_entry(end.utxos, w, keychain, i, outpoint) {
            if is_entry(mid.utxos, w, keychain, i, outpoint) {
                assert(is_entry(book.utxos, w, keychain, i, outpoint));
            } else {
                let j = choose|j: int|
                    0 <= j < inputs.len() && (#[trigger] inputs[j]).previous_output == outpoint;
                assert(spends_foreign(plan, inputs[j].previous_output));
                lemma_foreign_of_build(
                    builder,
                    visited,
                    n,
                    change_address.address.script(),
                    outpoint,
                );
                lemma_drained_are_included(book, wallet, psbts, psbts.len(), outpoint);
                assert(mid.included.contains(outpoint));
            }
        }
    }
}

/// What deprecated keychains gave is in the book, and nothing leaves it.
pub proof fn lemma_drained_are_included(
    book: UtxoBookView,
    wallet: WalletId,
    psbts: Seq<(KeychainId, Psbt)>,
    n: nat,
    outpoint: OutPoint,
)
    requires
        n <= psbts.len(),
        book.consistent(),
    ensures
        book.included.contains(outpoint) || is_spent_by_psbts(psbts, n as int, outpoint)
            ==> book.include_psbts(wallet, psbts, n).included.contains(outpoint),
{
    let now = book.include_psbts(wallet, psbts, n);
    lemma_include_psbts(book, wallet, psbts, n);
    lemma_entries_of_psbts(book, wallet, psbts, n);
    if book.included.contains(outpoint) {
        let (w, k, i) = choose|w: WalletId, k: KeychainId, i: int|
            is_entry(book.utxos, w, k, i, outpoint);
        assert(is_entry(now.utxos, w, k, i, outpoint));
    }
    if is_spent_by_psbts(psbts, n as int, outpoint) {
        let a = choose|a: int|
            0 <= a < n && is_spent(
                (#[trigger] psbts[a]).1.inputs@,
                psbts[a].1.inputs@.len() as int,
                outpoint,
            );
        assert(is_drained_from(psbts, n as int, psbts[a].0, outpoint));
        let i = choose|i: int| #[trigger]
            is_entry(now.utxos, wallet, psbts[a].0, i, outpoint);
        assert(now.included.contains(outpoint));
    }
}

} // verus!
