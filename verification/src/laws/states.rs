//! What each step of a build changes, and what it leaves as it was.

use vstd::prelude::*;

use super::inputs::{is_drained_from, is_spent, is_spent_by_psbts};
use super::inputs::{lemma_drained_are_included, lemma_entries_of_new_inputs};
use super::inputs::lemma_entries_of_psbts;
use crate::builder::current::WalletBuild;
use crate::builder_model::{change_value, weigh_inputs, BuilderView};
use crate::primitives::{KeychainId, OutPoint, WalletId};
use crate::psbt::{BuiltTx, Psbt, PsbtInput, TxOut, TxPayout};
use crate::script::AddressInfo;
use crate::utxo_book::{is_entry, lemma_include_psbts, UtxoBookView};

verus! {

/// A build starts with no configuration, no wallet, no transaction and no fee.
pub proof fn law_new_builds_hold_nothing()
    ensures
        BuilderView::initial().consolidate_deprecated_keychains is None,
        BuilderView::initial().fee_rate is None,
        BuilderView::initial().reserved_utxos is None,
        BuilderView::initial().current_wallet is None,
        BuilderView::initial().current_payouts.len() == 0,
        BuilderView::initial().current_wallet_psbts.len() == 0,
        BuilderView::initial().result.included_payouts == Map::<
            WalletId,
            Seq<(TxPayout, u32)>,
        >::empty(),
        BuilderView::initial().result.included_utxos == Map::<
            WalletId,
            Map<KeychainId, Seq<OutPoint>>,
        >::empty(),
        BuilderView::initial().result.included_wallet_keychains == Map::<
            KeychainId,
            WalletId,
        >::empty(),
        BuilderView::initial().result.wallet_totals.dom() == Set::<WalletId>::empty(),
        BuilderView::initial().result.fee_satoshis == 0,
        BuilderView::initial().result.tx_id is None,
        BuilderView::initial().result.psbt is None,
        BuilderView::initial().input_weights == Map::<OutPoint, usize>::empty(),
        BuilderView::initial().all_included_utxos == Set::<OutPoint>::empty(),
{
    assert(BuilderView::initial().result.wallet_totals.dom() =~= Set::empty());
}

/// Deprecated keychains are emptied exactly if the configuration asks for it, whatever
/// was built before.
pub proof fn law_configuration_decides_on_drains(builder: BuilderView)
    ensures
        builder.consolidates() <==> (builder.consolidate_deprecated_keychains matches Some(
            consolidate,
        ) && consolidate),
{
}

/// Giving a wallet its turn sets the wallet and its payouts and nothing else, and ending
/// the turn unsets them and nothing else.
pub proof fn law_turns_change_the_wallet_only(
    builder: BuilderView,
    wallet: WalletId,
    payouts: Seq<TxPayout>,
)
    ensures
        builder.for_wallet(wallet, payouts).current_wallet == Some(wallet),
        builder.for_wallet(wallet, payouts).current_payouts == payouts,
        builder.between_wallets().current_wallet is None,
        builder.between_wallets().current_payouts.len() == 0,
        builder.for_wallet(wallet, payouts).between_wallets() == builder.between_wallets(),
        builder.for_wallet(wallet, payouts).result == builder.result,
        builder.for_wallet(wallet, payouts).current_wallet_psbts == builder.current_wallet_psbts,
        builder.for_wallet(wallet, payouts).input_weights == builder.input_weights,
        builder.for_wallet(wallet, payouts).all_included_utxos == builder.all_included_utxos,
        builder.for_wallet(wallet, payouts).fee_rate == builder.fee_rate,
        builder.for_wallet(wallet, payouts).reserved_utxos == builder.reserved_utxos,
        builder.for_wallet(wallet, payouts).consolidate_deprecated_keychains
            == builder.consolidate_deprecated_keychains,
        builder.between_wallets().result == builder.result,
        builder.between_wallets().current_wallet_psbts == builder.current_wallet_psbts,
        builder.between_wallets().input_weights == builder.input_weights,
        builder.between_wallets().all_included_utxos == builder.all_included_utxos,
        builder.between_wallets().fee_rate == builder.fee_rate,
        builder.between_wallets().reserved_utxos == builder.reserved_utxos,
        builder.between_wallets().consolidate_deprecated_keychains
            == builder.consolidate_deprecated_keychains,
{
}

proof fn lemma_weights(
    weights: Map<OutPoint, usize>,
    inputs: Seq<PsbtInput>,
    weight: usize,
    n: nat,
)
    requires
        n <= inputs.len(),
    ensures
        ({
            let now = weigh_inputs(weights, inputs, weight, n);
            &&& forall|i: int|
                0 <= i < n ==> {
                    &&& now.contains_key((#[trigger] inputs[i]).previous_output)
                    &&& now[inputs[i].previous_output] == weight
                }
            &&& forall|outpoint: OutPoint|
                !is_spent(inputs, n as int, outpoint) ==> {
                    &&& #[trigger] now.contains_key(outpoint) <==> weights.contains_key(outpoint)
                    &&& weights.contains_key(outpoint) ==> now[outpoint] == weights[outpoint]
                }
        }),
    decreases n,
{
    if n > 0 {
        lemma_weights(weights, inputs, weight, (n - 1) as nat);
        let before = weigh_inputs(weights, inputs, weight, (n - 1) as nat);
        let now = weigh_inputs(weights, inputs, weight, n);
        assert forall|outpoint: OutPoint| !is_spent(inputs, n as int, outpoint) implies {
            &&& #[trigger] now.contains_key(outpoint) <==> weights.contains_key(outpoint)
            &&& weights.contains_key(outpoint) ==> now[outpoint] == weights[outpoint]
        } by {
            assert(inputs[n - 1].previous_output != outpoint);
            if is_spent(inputs, n - 1, outpoint) {
                let i = choose|i: int|
                    0 <= i < n - 1 && (#[trigger] inputs[i]).previous_output == outpoint;
                assert(inputs[i].previous_output == outpoint);
            }
            assert(before.contains_key(outpoint) <==> weights.contains_key(outpoint));
        }
    }
}

/// The drain of a deprecated keychain adds its transaction to those that are open, gives
/// each of its inputs the weight of the keychain, and changes nothing else.
pub proof fn law_drains_open_one_transaction(
    builder: BuilderView,
    keychain: KeychainId,
    satisfaction_weight: usize,
    psbt: Psbt,
)
    ensures
        ({
            let now = builder.drained(keychain, satisfaction_weight, psbt);
            &&& now.current_wallet_psbts.len() == builder.current_wallet_psbts.len() + 1
            &&& now.current_wallet_psbts.last() == (keychain, psbt)
            &&& forall|i: int|
                0 <= i < builder.current_wallet_psbts.len()
                    ==> #[trigger] now.current_wallet_psbts[i] == builder.current_wallet_psbts[i]
            &&& forall|i: int|
                0 <= i < psbt.inputs@.len() ==> {
                    let outpoint = (#[trigger] psbt.inputs@[i]).previous_output;
                    now.input_weights.contains_key(outpoint) && now.input_weights[outpoint]
                        == satisfaction_weight
                }
            &&& forall|outpoint: OutPoint|
                #![trigger now.input_weights.contains_key(outpoint)]
                (forall|i: int|
                    0 <= i < psbt.inputs@.len() ==> (#[trigger] psbt.inputs@[i]).previous_output
                        != outpoint) ==> {
                    &&& now.input_weights.contains_key(outpoint)
                        <==> builder.input_weights.contains_key(outpoint)
                    &&& builder.input_weights.contains_key(outpoint)
                        ==> now.input_weights[outpoint] == builder.input_weights[outpoint]
                }
            &&& now.result == builder.result
            &&& now.all_included_utxos == builder.all_included_utxos
            &&& now.current_wallet == builder.current_wallet
            &&& now.current_payouts == builder.current_payouts
        }),
{
    let now = builder.drained(keychain, satisfaction_weight, psbt);
    lemma_weights(
        builder.input_weights,
        psbt.inputs@,
        satisfaction_weight,
        psbt.inputs@.len(),
    );
    assert forall|outpoint: OutPoint|
        #![trigger now.input_weights.contains_key(outpoint)]
        (forall|i: int|
            0 <= i < psbt.inputs@.len() ==> (#[trigger] psbt.inputs@[i]).previous_output
                != outpoint) implies {
        &&& now.input_weights.contains_key(outpoint) <==> builder.input_weights.contains_key(
            outpoint,
        )
        &&& builder.input_weights.contains_key(outpoint) ==> now.input_weights[outpoint]
            == builder.input_weights[outpoint]
    } by {
        assert(!is_spent(psbt.inputs@, psbt.inputs@.len() as int, outpoint));
    }
}

/// What was configured stays as it was configured: no visit changes whether deprecated
/// keychains are emptied, the fee rate or what is reserved.
pub proof fn law_visits_keep_the_configuration(
    builder: BuilderView,
    keychain: KeychainId,
    satisfaction_weight: usize,
    psbt: Psbt,
    n: int,
    change_address: AddressInfo,
    output: int,
    built: BuiltTx,
)
    ensures
        ({
            let drained = builder.drained(keychain, satisfaction_weight, psbt);
            let committed = builder.committed(n);
            let completed = builder.completed(
                keychain,
                satisfaction_weight,
                change_address,
                output,
                built,
            );
            &&& drained.consolidate_deprecated_keychains
                == builder.consolidate_deprecated_keychains
            &&& drained.fee_rate == builder.fee_rate
            &&& drained.reserved_utxos == builder.reserved_utxos
            &&& committed.consolidate_deprecated_keychains
                == builder.consolidate_deprecated_keychains
            &&& committed.fee_rate == builder.fee_rate
            &&& committed.reserved_utxos == builder.reserved_utxos
            &&& completed.consolidate_deprecated_keychains
                == builder.consolidate_deprecated_keychains
            &&& completed.fee_rate == builder.fee_rate
            &&& completed.reserved_utxos == builder.reserved_utxos
        }),
{
}

/// Committing payouts takes them off those that are left, uses up the open transactions
/// and the transaction built before, and changes no totals, fee or weight.
pub proof fn law_commits_use_up_what_is_open(builder: BuilderView, n: int)
    requires
        0 <= n <= builder.current_payouts.len(),
    ensures
        ({
            let now = builder.committed(n);
            &&& builder.current_payouts == builder.current_payouts.take(n) + now.current_payouts
            &&& now.current_payouts.len() == builder.current_payouts.len() - n
            &&& now.current_wallet_psbts.len() == 0
            &&& now.result.psbt is None
            &&& now.result.wallet_totals == builder.result.wallet_totals
            &&& now.result.fee_satoshis == builder.result.fee_satoshis
            &&& now.result.tx_id == builder.result.tx_id
            &&& now.input_weights == builder.input_weights
            &&& now.current_wallet == builder.current_wallet
        }),
{
    assert(builder.current_payouts =~= builder.current_payouts.take(n) + builder.committed(
        n,
    ).current_payouts);
}

/// The change is the value of the first output, wherever it stands, that pays to the
/// change script, and nothing only if there is no such output.
pub proof fn law_change_is_the_first_output_to_the_script(
    outputs: Seq<TxOut>,
    script: Seq<u8>,
)
    ensures
        forall|i: int|
            0 <= i < outputs.len() && (#[trigger] outputs[i]).script_pubkey@ == script && (forall|
                j: int,
            |
                0 <= j < i ==> (#[trigger] outputs[j]).script_pubkey@ != script) ==> change_value(
                outputs,
                script,
                0,
            ) == outputs[i].value,
        (forall|i: int| 0 <= i < outputs.len() ==> (#[trigger] outputs[i]).script_pubkey@ != script)
            ==> change_value(outputs, script, 0) == 0,
{
    assert forall|i: int|
        0 <= i < outputs.len() && (#[trigger] outputs[i]).script_pubkey@ == script && (forall|
            j: int,
        |
            0 <= j < i ==> (#[trigger] outputs[j]).script_pubkey@ != script) implies change_value(
        outputs,
        script,
        0,
    ) == outputs[i].value by {
        lemma_change_from(outputs, script, 0, i);
    }
    if forall|i: int| 0 <= i < outputs.len() ==> (#[trigger] outputs[i]).script_pubkey@ != script {
        lemma_no_change_from(outputs, script, 0);
    }
}

proof fn lemma_change_from(outputs: Seq<TxOut>, script: Seq<u8>, start: int, i: int)
    requires
        0 <= start <= i < outputs.len(),
        outputs[i].script_pubkey@ == script,
        forall|j: int| start <= j < i ==> (#[trigger] outputs[j]).script_pubkey@ != script,
    ensures
        change_value(outputs, script, start) == outputs[i].value,
    decreases i - start,
{
    if start < i {
        assert(outputs[start].script_pubkey@ != script);
        lemma_change_from(outputs, script, start + 1, i);
    }
}

proof fn lemma_no_change_from(outputs: Seq<TxOut>, script: Seq<u8>, start: int)
    requires
        0 <= start,
        forall|i: int| 0 <= i < outputs.len() ==> (#[trigger] outputs[i]).script_pubkey@ != script,
    ensures
        change_value(outputs, script, start) == 0,
    decreases outputs.len() - start,
{
    if start < outputs.len() {
        assert(outputs[start].script_pubkey@ != script);
        lemma_no_change_from(outputs, script, start + 1);
    }
}

/// When the transaction with the payouts of a wallet is built, the wallet gets its totals:
/// what its payouts come to, the part of the fee that is new, the change that the
/// transaction brings to its address, and the input that pays for all three. The totals
/// of all other wallets stay.
pub proof fn law_totals_of_a_built_transaction(
    builder: BuilderView,
    keychain: KeychainId,
    satisfaction_weight: usize,
    change_address: AddressInfo,
    output: int,
    built: BuiltTx,
)
    requires
        builder.current_wallet is Some,
    ensures
        ({
            let wallet = builder.current_wallet->0;
            let now = builder.completed(
                keychain,
                satisfaction_weight,
                change_address,
                output,
                built,
            ).result;
            let total = now.wallet_totals[wallet];
            let outputs = built.psbt.outputs@;
            let script = change_address.address.script();
            &&& now.wallet_totals.dom() == builder.result.wallet_totals.dom().insert(wallet)
            &&& now.wallet_totals.remove(wallet) == builder.result.wallet_totals.remove(wallet)
            &&& total.wallet_id == wallet
            &&& total.change_keychain_id == keychain
            &&& total.keychains_with_inputs.len() == 0
            &&& total.output_satoshis == output
            &&& total.fee_satoshis + builder.result.fee_satoshis == built.fee
            &&& total.input_satoshis == total.output_satoshis + total.fee_satoshis
                + total.change_satoshis
            &&& total.change_address == change_address
            &&& total.change_outpoint is None
            &&& forall|i: int|
                0 <= i < outputs.len() && (#[trigger] outputs[i]).script_pubkey@ == script && (
                forall|j: int| 0 <= j < i ==> (#[trigger] outputs[j]).script_pubkey@ != script)
                    ==> total.change_satoshis == outputs[i].value
            &&& (forall|i: int|
                0 <= i < outputs.len() ==> (#[trigger] outputs[i]).script_pubkey@ != script)
                ==> total.change_satoshis == 0
        }),
{
    let wallet = builder.current_wallet->0;
    let now = builder.completed(
        keychain,
        satisfaction_weight,
        change_address,
        output,
        built,
    ).result;
    law_change_is_the_first_output_to_the_script(
        built.psbt.outputs@,
        change_address.address.script(),
    );
    assert(now.wallet_totals.dom() =~= builder.result.wallet_totals.dom().insert(wallet));
    assert(now.wallet_totals.remove(wallet) =~= builder.result.wallet_totals.remove(wallet));
}

/// The transaction that was built takes the place of the one before, with its fee and its
/// id. Each of its inputs gets the weight of the visited keychain, and all other weights,
/// the payouts and what is left of them stay.
pub proof fn law_built_transactions_are_kept(
    builder: BuilderView,
    keychain: KeychainId,
    satisfaction_weight: usize,
    change_address: AddressInfo,
    output: int,
    built: BuiltTx,
)
    ensures
        ({
            let now = builder.completed(
                keychain,
                satisfaction_weight,
                change_address,
                output,
                built,
            );
            &&& now.result.psbt == Some(built.psbt)
            &&& now.result.tx_id == Some(built.txid)
            &&& now.result.fee_satoshis == built.fee
            &&& now.result.included_payouts == builder.result.included_payouts
            &&& now.current_payouts == builder.current_payouts
            &&& now.current_wallet == builder.current_wallet
            &&& now.current_wallet_psbts == builder.current_wallet_psbts
            &&& forall|i: int|
                0 <= i < built.psbt.inputs@.len() ==> {
                    let outpoint = (#[trigger] built.psbt.inputs@[i]).previous_output;
                    now.input_weights.contains_key(outpoint) && now.input_weights[outpoint]
                        == satisfaction_weight
                }
            &&& forall|outpoint: OutPoint|
                #![trigger now.input_weights.contains_key(outpoint)]
                (forall|i: int|
                    0 <= i < built.psbt.inputs@.len()
                        ==> (#[trigger] built.psbt.inputs@[i]).previous_output != outpoint) ==> {
                    &&& now.input_weights.contains_key(outpoint)
                        <==> builder.input_weights.contains_key(outpoint)
                    &&& builder.input_weights.contains_key(outpoint)
                        ==> now.input_weights[outpoint] == builder.input_weights[outpoint]
                }
        }),
{
    let now = builder.completed(keychain, satisfaction_weight, change_address, output, built);
    let inputs = built.psbt.inputs@;
    lemma_weights(builder.input_weights, inputs, satisfaction_weight, inputs.len());
    assert forall|outpoint: OutPoint|
        #![trigger now.input_weights.contains_key(outpoint)]
        (forall|i: int|
            0 <= i < built.psbt.inputs@.len()
                ==> (#[trigger] built.psbt.inputs@[i]).previous_output != outpoint) implies {
        &&& now.input_weights.contains_key(outpoint) <==> builder.input_weights.contains_key(
            outpoint,
        )
        &&& builder.input_weights.contains_key(outpoint) ==> now.input_weights[outpoint]
            == builder.input_weights[outpoint]
    } by {
        assert(!is_spent(inputs, inputs.len() as int, outpoint));
    }
}

/// One entry more stands behind those of its keychain and wallet; all other lists, and the
/// wallets of all other keychains, stay as they are.
pub proof fn law_entries_are_added_at_the_end(
    book: UtxoBookView,
    wallet: WalletId,
    keychain: KeychainId,
    outpoint: OutPoint,
)
    ensures
        ({
            let now = book.include_utxo(wallet, keychain, outpoint);
            let before = if book.utxos.contains_key(wallet) && book.utxos[wallet].contains_key(
                keychain,
            ) {
                book.utxos[wallet][keychain]
            } else {
                Seq::empty()
            };
            &&& now.utxos.contains_key(wallet)
            &&& now.utxos[wallet].contains_key(keychain)
            &&& now.utxos[wallet][keychain] == before.push(outpoint)
            &&& now.utxos.remove(wallet) == book.utxos.remove(wallet)
            &&& forall|k: KeychainId|
                k != keychain ==> {
                    &&& #[trigger] now.utxos[wallet].contains_key(k) <==> (book.utxos.contains_key(
                        wallet,
                    ) && book.utxos[wallet].contains_key(k))
                    &&& now.utxos[wallet].contains_key(k) ==> now.utxos[wallet][k]
                        == book.utxos[wallet][k]
                }
            &&& now.keychains.contains_key(keychain)
            &&& now.keychains[keychain] == wallet
            &&& now.keychains.remove(keychain) == book.keychains.remove(keychain)
            &&& forall|o: OutPoint| #[trigger]
                now.included.contains(o) <==> book.included.contains(o) || o == outpoint
        }),
{
    let now = book.include_utxo(wallet, keychain, outpoint);
    assert(now.utxos.remove(wallet) =~= book.utxos.remove(wallet));
    assert(now.keychains.remove(keychain) =~= book.keychains.remove(keychain));
}

/// The visit of a current keychain leaves every entry of the book in its place.
pub proof fn law_visits_keep_entries(
    builder: BuilderView,
    n: int,
    keychain: KeychainId,
    satisfaction_weight: usize,
    change_address: AddressInfo,
    output: int,
    built: BuiltTx,
    w: WalletId,
    k: KeychainId,
)
    requires
        builder.ready_for_wallet(),
        builder.result.included_utxos.contains_key(w),
        builder.result.included_utxos[w].contains_key(k),
        builder.result.included_utxos[w][k].len() > 0,
    ensures
        ({
            let before = builder.result.included_utxos[w][k];
            let now = builder.committed(n).completed(
                keychain,
                satisfaction_weight,
                change_address,
                output,
                built,
            ).result.included_utxos;
            &&& now.contains_key(w)
            &&& now[w].contains_key(k)
            &&& before.len() <= now[w][k].len()
            &&& now[w][k].take(before.len() as int) == before
        }),
{
    let wallet = builder.current_wallet->0;
    let psbts = builder.current_wallet_psbts;
    let inputs = built.psbt.inputs@;
    let book = builder.book();
    let mid = book.include_psbts(wallet, psbts, psbts.len());
    let end = mid.attribute_inputs(wallet, keychain, inputs, inputs.len());
    let done = builder.committed(n).completed(
        keychain,
        satisfaction_weight,
        change_address,
        output,
        built,
    );
    assert(builder.committed(n).book() == mid);
    assert(done.book() == end);
    lemma_include_psbts(book, wallet, psbts, psbts.len());
    lemma_entries_of_psbts(book, wallet, psbts, psbts.len());
    lemma_entries_of_new_inputs(mid, wallet, keychain, inputs, inputs.len());
    let before = builder.result.included_utxos;
    let now = done.result.included_utxos;
    assert(before == book.utxos && now == end.utxos);
    assert forall|i: int| 0 <= i < before[w][k].len() implies is_entry(
        now,
        w,
        k,
        i,
        #[trigger] before[w][k][i],
    ) by {
        let o = before[w][k][i];
        assert(is_entry(before, w, k, i, o));
        assert(is_entry(mid.utxos, w, k, i, o));
    }
    let last = before[w][k].len() - 1;
    assert(is_entry(now, w, k, last, before[w][k][last]));
    assert(now[w][k].take(before[w][k].len() as int) =~= before[w][k]);
}

/// What a deprecated keychain of the wallet gave is listed under that keychain, and
/// counted as included, after the visit of the current one.
pub proof fn law_visits_book_what_was_drained(
    builder: BuilderView,
    n: int,
    keychain: KeychainId,
    satisfaction_weight: usize,
    change_address: AddressInfo,
    output: int,
    built: BuiltTx,
    a: int,
    i: int,
)
    requires
        builder.ready_for_wallet(),
        0 <= a < builder.current_wallet_psbts.len(),
        0 <= i < builder.current_wallet_psbts[a].1.inputs@.len(),
    ensures
        ({
            let wallet = builder.current_wallet->0;
            let (drained, psbt) = builder.current_wallet_psbts[a];
            let done = builder.committed(n).completed(
                keychain,
                satisfaction_weight,
                change_address,
                output,
                built,
            );
            let now = done.result.included_utxos;
            &&& now.contains_key(wallet)
            &&& now[wallet].contains_key(drained)
            &&& now[wallet][drained].contains(psbt.inputs@[i].previous_output)
            &&& done.all_included_utxos.contains(psbt.inputs@[i].previous_output)
        }),
{
    let wallet = builder.current_wallet->0;
    let psbts = builder.current_wallet_psbts;
    let inputs = built.psbt.inputs@;
    let book = builder.book();
    let mid = book.include_psbts(wallet, psbts, psbts.len());
    let end = mid.attribute_inputs(wallet, keychain, inputs, inputs.len());
    let done = builder.committed(n).completed(
        keychain,
        satisfaction_weight,
        change_address,
        output,
        built,
    );
    assert(builder.committed(n).book() == mid);
    assert(done.book() == end);
    lemma_include_psbts(book, wallet, psbts, psbts.len());
    lemma_entries_of_psbts(book, wallet, psbts, psbts.len());
    lemma_entries_of_new_inputs(mid, wallet, keychain, inputs, inputs.len());
    let before = builder.result.included_utxos;
    let now = done.result.included_utxos;
    assert(before == book.utxos && now == end.utxos);
    let o = psbts[a].1.inputs@[i].previous_output;
    let k = psbts[a].0;
    assert(is_spent(psbts[a].1.inputs@, psbts[a].1.inputs@.len() as int, o));
    assert(is_drained_from(psbts, psbts.len() as int, k, o));
    assert(is_spent_by_psbts(psbts, psbts.len() as int, o));
    let e = choose|e: int| #[trigger] is_entry(mid.utxos, wallet, k, e, o);
    assert(is_entry(now, wallet, k, e, o));
    assert(now[wallet][k][e] == o);
    lemma_drained_are_included(book, wallet, psbts, psbts.len(), o);
    assert(end.included.contains(o));
}

/// Is `outpoint` an input of one of the open transactions?
pub open spec fn is_open_input(builder: BuilderView, outpoint: OutPoint) -> bool {
    exists|a: int, j: int|
        0 <= a < builder.current_wallet_psbts.len() && 0 <= j
            < builder.current_wallet_psbts[a].1.inputs@.len()
            && (#[trigger] builder.current_wallet_psbts[a].1.inputs@[j]).previous_output
            == outpoint
}

/// An input of the transaction that was not in the book, and that no deprecated keychain
/// gave, is listed under the visited keychain. All inputs are counted as included.
pub proof fn law_visits_book_new_inputs(
    builder: BuilderView,
    n: int,
    keychain: KeychainId,
    satisfaction_weight: usize,
    change_address: AddressInfo,
    output: int,
    built: BuiltTx,
    i: int,
)
    requires
        builder.ready_for_wallet(),
        0 <= i < built.psbt.inputs@.len(),
    ensures
        ({
            let wallet = builder.current_wallet->0;
            let outpoint = built.psbt.inputs@[i].previous_output;
            let done = builder.committed(n).completed(
                keychain,
                satisfaction_weight,
                change_address,
                output,
                built,
            );
            let now = done.result.included_utxos;
            &&& done.all_included_utxos.contains(outpoint)
            &&& !builder.all_included_utxos.contains(outpoint) && !is_open_input(builder, outpoint)
                ==> {
                &&& now.contains_key(wallet)
                &&& now[wallet].contains_key(keychain)
                &&& now[wallet][keychain].contains(outpoint)
            }
        }),
{
    let wallet = builder.current_wallet->0;
    let psbts = builder.current_wallet_psbts;
    let inputs = built.psbt.inputs@;
    let book = builder.book();
    let mid = book.include_psbts(wallet, psbts, psbts.len());
    let end = mid.attribute_inputs(wallet, keychain, inputs, inputs.len());
    let done = builder.committed(n).completed(
        keychain,
        satisfaction_weight,
        change_address,
        output,
        built,
    );
    assert(builder.committed(n).book() == mid);
    assert(done.book() == end);
    lemma_include_psbts(book, wallet, psbts, psbts.len());
    lemma_entries_of_psbts(book, wallet, psbts, psbts.len());
    lemma_entries_of_new_inputs(mid, wallet, keychain, inputs, inputs.len());
    let before = builder.result.included_utxos;
    let now = done.result.included_utxos;
    assert(before == book.utxos && now == end.utxos);
    let o = inputs[i].previous_output;
    assert(is_spent(inputs, inputs.len() as int, o));
    assert(end.included.contains(o));
    if mid.included.contains(o) {
        let (w, k, e) = choose|w: WalletId, k: KeychainId, e: int|
            is_entry(mid.utxos, w, k, e, o);
        if is_entry(before, w, k, e, o) {
            assert(book.included.contains(o));
        } else {
            lemma_drained_witness(psbts, k, o);
        }
    } else {
        assert(!mid.included.contains(inputs[i].previous_output));
        assert(end.lists_under(wallet, keychain, o));
        let e = choose|e: int| #[trigger] is_entry(end.utxos, wallet, keychain, e, o);
        assert(now[wallet][keychain][e] == o);
    }
}

/// A visit adds to the book what deprecated keychains of the wallet gave, under these
/// keychains, and inputs of the transaction under the visited one: nothing else.
pub proof fn law_visits_book_nothing_else(
    builder: BuilderView,
    n: int,
    keychain: KeychainId,
    satisfaction_weight: usize,
    change_address: AddressInfo,
    output: int,
    built: BuiltTx,
    w: WalletId,
    k: KeychainId,
    i: int,
)
    requires
        builder.ready_for_wallet(),
        ({
            let now = builder.committed(n).completed(
                keychain,
                satisfaction_weight,
                change_address,
                output,
                built,
            ).result.included_utxos;
            now.contains_key(w) && now[w].contains_key(k) && 0 <= i < now[w][k].len()
        }),
    ensures
        ({
            let before = builder.result.included_utxos;
            let psbts = builder.current_wallet_psbts;
            let inputs = built.psbt.inputs@;
            let outpoint = builder.committed(n).completed(
                keychain,
                satisfaction_weight,
                change_address,
                output,
                built,
            ).result.included_utxos[w][k][i];
            ||| before.contains_key(w) && before[w].contains_key(k) && i < before[w][k].len()
            ||| Some(w) == builder.current_wallet && (exists|a: int, j: int|
                0 <= a < psbts.len() && psbts[a].0 == k && 0 <= j < psbts[a].1.inputs@.len()
                    && (#[trigger] psbts[a].1.inputs@[j]).previous_output == outpoint)
            ||| Some(w) == builder.current_wallet && k == keychain
                && !builder.all_included_utxos.contains(outpoint) && (exists|j: int|
                0 <= j < inputs.len() && (#[trigger] inputs[j]).previous_output == outpoint)
        }),
{
    let wallet = builder.current_wallet->0;
    let psbts = builder.current_wallet_psbts;
    let inputs = built.psbt.inputs@;
    let book = builder.book();
    let mid = book.include_psbts(wallet, psbts, psbts.len());
    let end = mid.attribute_inputs(wallet, keychain, inputs, inputs.len());
    let done = builder.committed(n).completed(
        keychain,
        satisfaction_weight,
        change_address,
        output,
        built,
    );
    assert(builder.committed(n).book() == mid);
    assert(done.book() == end);
    lemma_include_psbts(book, wallet, psbts, psbts.len());
    lemma_entries_of_psbts(book, wallet, psbts, psbts.len());
    lemma_entries_of_new_inputs(mid, wallet, keychain, inputs, inputs.len());
    let before = builder.result.included_utxos;
    let now = done.result.included_utxos;
    assert(before == book.utxos && now == end.utxos);
    let o = now[w][k][i];
    assert(is_entry(now, w, k, i, o));
    if is_entry(mid.utxos, w, k, i, o) {
        if !is_entry(before, w, k, i, o) {
            lemma_drained_witness(psbts, k, o);
        }
    } else {
        assert(is_spent(inputs, inputs.len() as int, o));
        lemma_drained_are_included(book, wallet, psbts, psbts.len(), o);
    }
}

/// What is counted as included grows by the inputs of the open transactions and of the
/// transaction that was built.
pub proof fn law_visits_include_nothing_else(
    builder: BuilderView,
    n: int,
    keychain: KeychainId,
    satisfaction_weight: usize,
    change_address: AddressInfo,
    output: int,
    built: BuiltTx,
    outpoint: OutPoint,
)
    requires
        builder.ready_for_wallet(),
    ensures
        builder.committed(n).completed(
            keychain,
            satisfaction_weight,
            change_address,
            output,
            built,
        ).all_included_utxos.contains(outpoint) <==> {
            ||| builder.all_included_utxos.contains(outpoint)
            ||| is_open_input(builder, outpoint)
            ||| exists|j: int|
                0 <= j < built.psbt.inputs@.len()
                    && (#[trigger] built.psbt.inputs@[j]).previous_output == outpoint
        },
{
    let wallet = builder.current_wallet->0;
    let psbts = builder.current_wallet_psbts;
    let inputs = built.psbt.inputs@;
    let book = builder.book();
    let mid = book.include_psbts(wallet, psbts, psbts.len());
    let end = mid.attribute_inputs(wallet, keychain, inputs, inputs.len());
    let done = builder.committed(n).completed(
        keychain,
        satisfaction_weight,
        change_address,
        output,
        built,
    );
    assert(builder.committed(n).book() == mid);
    assert(done.book() == end);
    lemma_include_psbts(book, wallet, psbts, psbts.len());
    lemma_entries_of_psbts(book, wallet, psbts, psbts.len());
    lemma_entries_of_new_inputs(mid, wallet, keychain, inputs, inputs.len());
    let before = builder.result.included_utxos;
    let now = done.result.included_utxos;
    assert(before == book.utxos && now == end.utxos);
    lemma_drained_are_included(book, wallet, psbts, psbts.len(), outpoint);
    assert(end.included.contains(outpoint) <==> mid.included.contains(outpoint) || is_spent(
        inputs,
        inputs.len() as int,
        outpoint,
    ));
    if mid.included.contains(outpoint) {
        let (w, k, e) = choose|w: WalletId, k: KeychainId, e: int|
            is_entry(mid.utxos, w, k, e, outpoint);
        if is_entry(before, w, k, e, outpoint) {
            assert(book.included.contains(outpoint));
        } else {
            lemma_drained_witness(psbts, k, outpoint);
        }
    }
    if is_open_input(builder, outpoint) {
        let (a, j) = choose|a: int, j: int|
            0 <= a < psbts.len() && 0 <= j < psbts[a].1.inputs@.len()
                && (#[trigger] psbts[a].1.inputs@[j]).previous_output == outpoint;
        assert(is_spent(psbts[a].1.inputs@, psbts[a].1.inputs@.len() as int, outpoint));
        assert(is_spent_by_psbts(psbts, psbts.len() as int, outpoint));
    }
}

/// The wallet of a keychain changes only to that of the visit, and only for the visited
/// keychain and the deprecated ones that gave something.
pub proof fn law_visits_name_their_wallet(
    builder: BuilderView,
    n: int,
    keychain: KeychainId,
    satisfaction_weight: usize,
    change_address: AddressInfo,
    output: int,
    built: BuiltTx,
    k: KeychainId,
)
    requires
        builder.current_wallet is Some,
    ensures
        ({
            let before = builder.result.included_wallet_keychains;
            let now = builder.committed(n).completed(
                keychain,
                satisfaction_weight,
                change_address,
                output,
                built,
            ).result.included_wallet_keychains;
            &&& before.contains_key(k) ==> now.contains_key(k)
            &&& now.contains_key(k) ==> {
                ||| before.contains_key(k) && now[k] == before[k]
                ||| now[k] == builder.current_wallet->0 && (k == keychain || exists|a: int|
                    0 <= a < builder.current_wallet_psbts.len()
                        && (#[trigger] builder.current_wallet_psbts[a]).0 == k)
            }
        }),
{
    let wallet = builder.current_wallet->0;
    let psbts = builder.current_wallet_psbts;
    let inputs = built.psbt.inputs@;
    let mid = builder.book().include_psbts(wallet, psbts, psbts.len());
    assert(builder.committed(n).book() == mid);
    lemma_keychains_of_psbts(builder.book(), wallet, psbts, psbts.len(), k);
    lemma_keychains_of_new_inputs(mid, wallet, keychain, inputs, inputs.len(), k);
}

proof fn lemma_keychains_of_inputs(
    book: UtxoBookView,
    wallet: WalletId,
    keychain: KeychainId,
    inputs: Seq<PsbtInput>,
    n: nat,
    k: KeychainId,
)
    ensures
        ({
            let now = book.include_inputs(wallet, keychain, inputs, n).keychains;
            &&& book.keychains.contains_key(k) ==> now.contains_key(k)
            &&& now.contains_key(k) ==> (book.keychains.contains_key(k) && now[k]
                == book.keychains[k]) || (now[k] == wallet && k == keychain)
        }),
    decreases n,
{
    if n > 0 {
        lemma_keychains_of_inputs(book, wallet, keychain, inputs, (n - 1) as nat, k);
    }
}

proof fn lemma_keychains_of_psbts(
    book: UtxoBookView,
    wallet: WalletId,
    psbts: Seq<(KeychainId, Psbt)>,
    n: nat,
    k: KeychainId,
)
    requires
        n <= psbts.len(),
    ensures
        ({
            let now = book.include_psbts(wallet, psbts, n).keychains;
            &&& book.keychains.contains_key(k) ==> now.contains_key(k)
            &&& now.contains_key(k) ==> (book.keychains.contains_key(k) && now[k]
                == book.keychains[k]) || (now[k] == wallet && exists|a: int|
                0 <= a < n && (#[trigger] psbts[a]).0 == k)
        }),
    decreases n,
{
    if n > 0 {
        lemma_keychains_of_psbts(book, wallet, psbts, (n - 1) as nat, k);
        let before = book.include_psbts(wallet, psbts, (n - 1) as nat);
        let (keychain, psbt) = psbts[n - 1];
        lemma_keychains_of_inputs(
            before,
            wallet,
            keychain,
            psbt.inputs@,
            psbt.inputs@.len(),
            k,
        );
        if exists|a: int| 0 <= a < n - 1 && (#[trigger] psbts[a]).0 == k {
            let a = choose|a: int| 0 <= a < n - 1 && (#[trigger] psbts[a]).0 == k;
            assert(psbts[a].0 == k);
        }
        if k == keychain {
            assert(psbts[n - 1].0 == k);
        }
    }
}

proof fn lemma_keychains_of_new_inputs(
    book: UtxoBookView,
    wallet: WalletId,
    keychain: KeychainId,
    inputs: Seq<PsbtInput>,
    n: nat,
    k: KeychainId,
)
    ensures
        ({
            let now = book.attribute_inputs(wallet, keychain, inputs, n).keychains;
            &&& book.keychains.contains_key(k) ==> now.contains_key(k)
            &&& now.contains_key(k) ==> (book.keychains.contains_key(k) && now[k]
                == book.keychains[k]) || (now[k] == wallet && k == keychain)
        }),
    decreases n,
{
    if n > 0 {
        lemma_keychains_of_new_inputs(book, wallet, keychain, inputs, (n - 1) as nat, k);
    }
}

/// What a deprecated keychain gave is an input of one of its transactions.
proof fn lemma_drained_witness(
    psbts: Seq<(KeychainId, Psbt)>,
    keychain: KeychainId,
    outpoint: OutPoint,
)
    requires
        is_drained_from(psbts, psbts.len() as int, keychain, outpoint),
    ensures
        exists|a: int, j: int|
            0 <= a < psbts.len() && psbts[a].0 == keychain && 0 <= j < psbts[a].1.inputs@.len()
                && (#[trigger] psbts[a].1.inputs@[j]).previous_output == outpoint,
{
    let a = choose|a: int|
        0 <= a < psbts.len() && (#[trigger] psbts[a]).0 == keychain && is_spent(
            psbts[a].1.inputs@,
            psbts[a].1.inputs@.len() as int,
            outpoint,
        );
    let inputs = psbts[a].1.inputs@;
    let j = choose|j: int| 0 <= j < inputs.len() && (#[trigger] inputs[j]).previous_output == outpoint;
    assert(psbts[a].1.inputs@[j].previous_output == outpoint);
}

/// The part of the fee and the change that fall to a wallet are those that its totals will
/// show, and they are amounts exactly if 96 bits hold them.
pub proof fn law_wallet_parts_of_a_build(build: WalletBuild, built: BuiltTx)
    ensures
        build.wallet_fee(built) + build.builder@.result.fee_satoshis == built.fee,
        forall|i: int|
            0 <= i < built.psbt.outputs@.len()
                && (#[trigger] built.psbt.outputs@[i]).script_pubkey@
                == build.change_address.address.script() && (forall|j: int|
                0 <= j < i ==> (#[trigger] built.psbt.outputs@[j]).script_pubkey@
                    != build.change_address.address.script()) ==> build.wallet_change(built)
                == built.psbt.outputs@[i].value,
        (forall|i: int|
            0 <= i < built.psbt.outputs@.len()
                ==> (#[trigger] built.psbt.outputs@[i]).script_pubkey@
                != build.change_address.address.script()) ==> build.wallet_change(built) == 0,
        build.totals_are_amounts(built) <==> {
            let spent = build.output_satoshis@ + build.wallet_fee(built);
            let input = spent + build.wallet_change(built);
            &&& -0x1_0000_0000_0000_0000_0000_0000 < spent < 0x1_0000_0000_0000_0000_0000_0000
            &&& -0x1_0000_0000_0000_0000_0000_0000 < input < 0x1_0000_0000_0000_0000_0000_0000
        },
{
    law_change_is_the_first_output_to_the_script(
        built.psbt.outputs@,
        build.change_address.address.script(),
    );
}

} // verus!
