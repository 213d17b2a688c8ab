//! What the contents of the library's types are.

use std::collections::{HashMap, HashSet};

use vstd::prelude::*;

use crate::finished::{totals_view, utxos_view, FinishedPsbtBuild, WalletTotals};
use crate::outpoints::OutPointMap;
use crate::placement::{keys_of, lists_view, search_output};
use crate::primitives::{KeychainId, OutPoint, Satoshis, WalletId};
use crate::psbt::{TxOut, TxPlan};
use crate::utxo_book::UtxoBook;
use crate::wallet_repo::EntityEvents;

verus! {

/// The contents of a map of lists are the lists, each under its key.
pub proof fn law_lists_keep_their_keys<T>(lists: Map<u128, Vec<T>>, key: u128)
    ensures
        lists_view(lists).contains_key(key) <==> lists.contains_key(key),
        lists.contains_key(key) ==> lists_view(lists)[key] == lists[key]@,
{
}

/// The contents of totals are its fields.
pub proof fn law_contents_of_totals(total: WalletTotals)
    ensures
        total@.wallet_id == total.wallet_id,
        total@.change_keychain_id == total.change_keychain_id,
        total@.keychains_with_inputs == total.keychains_with_inputs@,
        total@.input_satoshis == total.input_satoshis@,
        total@.output_satoshis == total.output_satoshis@,
        total@.fee_satoshis == total.fee_satoshis@,
        total@.change_satoshis == total.change_satoshis@,
        total@.change_address == total.change_address,
        total@.change_outpoint == total.change_outpoint,
{
}

/// The contents of a finished build are its fields, lists and maps laid open.
pub proof fn law_contents_of_finished_builds(
    build: FinishedPsbtBuild,
    wallet: WalletId,
    keychain: KeychainId,
)
    ensures
        build@.tx_id == build.tx_id,
        build@.psbt == build.psbt,
        build@.fee_satoshis == build.fee_satoshis@,
        build@.included_wallet_keychains == build.included_wallet_keychains@,
        build@.included_payouts.contains_key(wallet) <==> build.included_payouts@.contains_key(
            wallet,
        ),
        build.included_payouts@.contains_key(wallet) ==> build@.included_payouts[wallet]
            == build.included_payouts@[wallet]@,
        build@.wallet_totals.contains_key(wallet) <==> build.wallet_totals@.contains_key(wallet),
        build.wallet_totals@.contains_key(wallet) ==> build@.wallet_totals[wallet]
            == build.wallet_totals@[wallet]@,
        build@.included_utxos.contains_key(wallet) <==> build.included_utxos@.contains_key(wallet),
        build.included_utxos@.contains_key(wallet) ==> {
            let of_wallet = build.included_utxos@[wallet]@;
            &&& build@.included_utxos[wallet].contains_key(keychain) <==> of_wallet.contains_key(
                keychain,
            )
            &&& of_wallet.contains_key(keychain) ==> build@.included_utxos[wallet][keychain]
                == of_wallet[keychain]@
        },
{
}

/// The contents of maps of totals and of maps of lists of outputs are their values, each
/// under its key.
pub proof fn law_maps_keep_their_keys(
    totals: Map<WalletId, WalletTotals>,
    utxos: Map<WalletId, HashMap<KeychainId, Vec<OutPoint>>>,
    wallet: WalletId,
)
    ensures
        totals_view(totals).contains_key(wallet) <==> totals.contains_key(wallet),
        totals.contains_key(wallet) ==> totals_view(totals)[wallet] == totals[wallet]@,
        utxos_view(utxos).contains_key(wallet) <==> utxos.contains_key(wallet),
        utxos.contains_key(wallet) ==> utxos_view(utxos)[wallet] == lists_view(utxos[wallet]@),
{
}

/// The contents of a book are its fields.
pub proof fn law_contents_of_books(book: UtxoBook, outpoint: OutPoint)
    ensures
        book@.utxos == utxos_view(book.utxos@),
        book@.keychains == book.keychains@,
        book@.included.contains(outpoint) <==> book.included@.contains_key(outpoint),
{
}

/// The contents of a plan are its fields.
pub proof fn law_contents_of_plans(plan: TxPlan, i: int)
    ensures
        plan@.fee_rate == plan.fee_rate,
        plan@.unspendable == plan.unspendable@,
        plan@.foreign_utxos == plan.foreign_utxos@,
        plan@.drain_wallet == plan.drain_wallet,
        plan@.drain_to is Some <==> plan.drain_to is Some,
        plan.drain_to matches Some(script) ==> plan@.drain_to == Some(script@),
        plan@.sighash == plan.sighash,
        plan@.ordering == plan.ordering,
        plan@.recipients.len() == plan.recipients@.len(),
        0 <= i < plan.recipients@.len() ==> plan@.recipients[i].0
            == plan.recipients@[i].script_pubkey@ && plan@.recipients[i].1
            == plan.recipients@[i].amount,
{
}

/// The contents of loaded events are the events with their numbers, and there are none at
/// first.
pub proof fn law_contents_of_events<E>(events: EntityEvents<E>, none: EntityEvents<E>)
    requires
        call_ensures(EntityEvents::<E>::new, (), none),
    ensures
        events@ == events.events@,
        none.events@.len() == 0,
{
}

/// The keys of a map are all listed, and each once.
pub proof fn law_keys_are_listed_once<V>(map: HashMap<u128, V>, keys: Vec<u128>, key: u128)
    requires
        call_ensures(keys_of::<V>, (&map,), keys),
    ensures
        keys@.contains(key) <==> map@.contains_key(key),
        forall|i: int, j: int|
            0 <= i < j < keys@.len() ==> #[trigger] keys@[i] != #[trigger] keys@[j],
{
    assert(keys@.to_set().contains(key) <==> map@.dom().contains(key));
}

/// The search for an output gives the first that is free and has the script and the value
/// that are looked for, and nothing only if there is none.
pub proof fn law_searches_find_the_first(
    outputs: Vec<TxOut>,
    taken: HashSet<usize>,
    script: Vec<u8>,
    sats: Satoshis,
    found: Option<usize>,
    j: usize,
)
    requires
        outputs@.len() <= usize::MAX,
        call_ensures(search_output, (&outputs, &taken, &script, sats), found),
    ensures
        found matches Some(vout) ==> {
            &&& vout < outputs@.len()
            &&& !taken@.contains(vout)
            &&& outputs@[vout as int].script_pubkey@ == script@
            &&& outputs@[vout as int].value == sats@
        },
        j < outputs@.len() && !taken@.contains(j) && outputs@[j as int].script_pubkey@ == script@
            && outputs@[j as int].value == sats@ ==> found is Some && found->0 <= j,
{
    crate::placement::lemma_find_output(outputs@, taken@, script@, sats@, 0);
    assert(taken@.contains(j) || !taken@.contains(j));
}

/// A map of outputs gives back what it holds, and nothing where it holds nothing.
pub proof fn law_outpoint_maps_give_back<V>(
    map: OutPointMap<V>,
    empty: OutPointMap<V>,
    key: OutPoint,
    value: V,
    held: bool,
)
    requires
        call_ensures(OutPointMap::<V>::new, (), empty),
        call_ensures(OutPointMap::<V>::contains_key, (&map, &key), held),
    ensures
        !empty@.contains_key(key),
        held <==> map@.contains_key(key),
        call_ensures(OutPointMap::<V>::get, (&map, &key), Some(&value)) ==> held && map@[key]
            == value,
        call_ensures(OutPointMap::<V>::get, (&map, &key), None::<&V>) ==> !held,
{
}

} // verus!
