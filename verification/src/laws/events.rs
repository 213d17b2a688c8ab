//! What holds of the events of wallets.

use std::collections::HashMap;

use vstd::prelude::*;

use crate::primitives::{Network, WalletId};
use crate::wallet_repo::{are_first_rows, events_of, group_events, has_events, loaded, made_from};
use crate::wallet_repo::{EntityEvents, NewWallet, WalletEventRow, WalletLookupError, WalletRow};
use crate::wallet_repo::Wallets;

verus! {

/// Every row is loaded as an event of its wallet.
pub proof fn law_every_row_is_loaded<E>(rows: Seq<WalletEventRow<E>>, i: int)
    requires
        0 <= i < rows.len(),
    ensures
        events_of(rows, rows[i].id).contains(loaded(rows[i])),
    decreases rows.len(),
{
    reveal(Seq::filter);
    let id = rows[i].id;
    let kept = rows.filter(|row: WalletEventRow<E>| row.id == id);
    let events = events_of(rows, id);
    if i == rows.len() - 1 {
        assert(kept.last() == rows[i]);
        assert(events[events.len() - 1] == loaded(rows[i]));
    } else {
        let earlier = rows.drop_last();
        law_every_row_is_loaded(earlier, i);
        let before = events_of(earlier, id);
        let k = choose|k: int| 0 <= k < before.len() && before[k] == loaded(earlier[i]);
        assert(events[k] == loaded(rows[i]));
    }
}

/// Rows that are all of one wallet give the same events whether they are found by its
/// name or by its id, and are not found at all only where there are none.
pub proof fn law_name_and_id_find_the_same<E>(rows: Seq<WalletEventRow<E>>, id: WalletId)
    requires
        forall|i: int| 0 <= i < rows.len() ==> (#[trigger] rows[i]).id == id,
    ensures
        events_of(rows, id) == rows.map_values(|row: WalletEventRow<E>| loaded(row)),
        has_events(rows, id) <==> rows.len() > 0,
    decreases rows.len(),
{
    reveal(Seq::filter);
    let all = rows.map_values(|row: WalletEventRow<E>| loaded(row));
    if rows.len() > 0 {
        let earlier = rows.drop_last();
        assert forall|i: int| 0 <= i < earlier.len() implies (#[trigger] earlier[i]).id == id by {
            assert(rows[i].id == id);
        }
        law_name_and_id_find_the_same(earlier, id);
        assert(rows[rows.len() - 1].id == id);
        assert(events_of(rows, id) =~= events_of(earlier, id).push(loaded(rows.last())));
        assert(all =~= earlier.map_values(|row: WalletEventRow<E>| loaded(row)).push(
            loaded(rows.last()),
        ));
    } else {
        assert(events_of(rows, id) =~= all);
    }
}

/// A wallet that was created is made of its first events, each with its number, when
/// the rows that created it are found again, by its name or by its id.
pub proof fn law_created_wallets_are_found<E>(
    rows: Seq<WalletEventRow<E>>,
    id: WalletId,
    events: Seq<E>,
)
    requires
        are_first_rows(rows, id, events),
    ensures
        ({
            let numbered = Seq::new(events.len(), |i: int| ((i + 1) as usize, events[i]));
            &&& rows.map_values(|row: WalletEventRow<E>| loaded(row)) == numbered
            &&& events_of(rows, id) == numbered
            &&& has_events(rows, id) <==> events.len() > 0
        }),
{
    law_name_and_id_find_the_same(rows, id);
    assert(rows.map_values(|row: WalletEventRow<E>| loaded(row)) =~= Seq::new(
        events.len(),
        |i: int| ((i + 1) as usize, events[i]),
    ));
}

/// The events of a wallet are read row by row: without rows there are none, and one row
/// more adds its event, with its number, if it is of that wallet, and nothing if not.
pub proof fn law_rows_are_read_one_by_one<E>(
    rows: Seq<WalletEventRow<E>>,
    row: WalletEventRow<E>,
    id: WalletId,
)
    ensures
        events_of(Seq::<WalletEventRow<E>>::empty(), id).len() == 0,
        row.id == id ==> events_of(rows.push(row), id) == events_of(rows, id).push(
            (row.sequence as usize, row.event),
        ),
        row.id != id ==> events_of(rows.push(row), id) == events_of(rows, id),
        !has_events(Seq::<WalletEventRow<E>>::empty(), id),
        has_events(rows.push(row), id) <==> has_events(rows, id) || row.id == id,
{
    reveal(Seq::filter);
    let more = rows.push(row);
    assert(more.drop_last() =~= rows);
    if row.id == id {
        assert(events_of(more, id) =~= events_of(rows, id).push(
            (row.sequence as usize, row.event),
        ));
        assert(more[rows.len() as int].id == id);
    } else {
        assert(events_of(more, id) =~= events_of(rows, id));
    }
    if has_events(rows, id) {
        let i = choose|i: int| 0 <= i < rows.len() && (#[trigger] rows[i]).id == id;
        assert(more[i].id == id);
    }
    if has_events(more, id) && row.id != id {
        let i = choose|i: int| 0 <= i < more.len() && (#[trigger] more[i]).id == id;
        assert(rows[i].id == id);
    }
}

/// Every event of a wallet comes from one of its rows, with the number of that row, and
/// there is an event exactly if there is a row.
pub proof fn law_every_event_has_its_row<E>(rows: Seq<WalletEventRow<E>>, id: WalletId, k: int)
    requires
        0 <= k < events_of(rows, id).len(),
    ensures
        exists|i: int|
            0 <= i < rows.len() && (#[trigger] rows[i]).id == id && events_of(rows, id)[k] == (
                rows[i].sequence as usize,
                rows[i].event,
            ),
    decreases rows.len(),
{
    if rows.len() == 0 {
        law_rows_are_read_one_by_one(rows, arbitrary(), id);
        assert(rows =~= Seq::<WalletEventRow<E>>::empty());
    } else {
        let earlier = rows.drop_last();
        law_rows_are_read_one_by_one(earlier, rows.last(), id);
        assert(earlier.push(rows.last()) =~= rows);
        if rows.last().id == id && k == events_of(rows, id).len() - 1 {
            assert(rows[rows.len() - 1].id == id);
        } else {
            law_every_event_has_its_row(earlier, id, k);
            let i = choose|i: int|
                0 <= i < earlier.len() && (#[trigger] earlier[i]).id == id && events_of(
                    earlier,
                    id,
                )[k] == (earlier[i].sequence as usize, earlier[i].event);
            assert(rows[i].id == id);
        }
    }
}

/// Grouping keeps every wallet with rows, and no other, and gives it the events of its
/// rows, in their order.
pub proof fn law_groups_are_the_wallets<E>(
    rows: Vec<WalletEventRow<E>>,
    groups: HashMap<WalletId, EntityEvents<E>>,
    id: WalletId,
)
    requires
        call_ensures(group_events::<E>, (rows,), groups),
    ensures
        groups@.contains_key(id) <==> exists|i: int|
            0 <= i < rows@.len() && (#[trigger] rows@[i]).id == id,
        groups@.contains_key(id) ==> groups@[id].events@ == events_of(rows@, id),
{
    assert(groups@.contains_key(id) <==> has_events(rows@, id));
}

/// Rows that are all of one wallet, grouped, give that wallet the event of each row under
/// its number.
pub proof fn law_groups_of_one_wallet<E>(
    rows: Vec<WalletEventRow<E>>,
    groups: HashMap<WalletId, EntityEvents<E>>,
    id: WalletId,
    k: int,
)
    requires
        call_ensures(group_events::<E>, (rows,), groups),
        forall|i: int| 0 <= i < rows@.len() ==> (#[trigger] rows@[i]).id == id,
        0 <= k < rows@.len(),
    ensures
        groups@.contains_key(id),
        groups@[id].events@.len() == rows@.len(),
        groups@[id].events@[k] == (rows@[k].sequence as usize, rows@[k].event),
{
    law_groups_are_the_wallets(rows, groups, id);
    assert(rows@[k].id == id);
    law_name_and_id_find_the_same(rows@, id);
}

/// The rows that create a wallet are that of the wallet and one for each of its events, in
/// their order and numbered from 1 on.
pub proof fn law_wallets_are_created_with_their_events<E>(
    wallets: Wallets,
    new_wallet: NewWallet<E>,
    row: WalletRow,
    rows: Vec<WalletEventRow<E>>,
    i: int,
)
    requires
        call_ensures(Wallets::create_in_tx::<E>, (&wallets, new_wallet), (row, rows)),
        0 <= i < new_wallet.initial_events@.len(),
    ensures
        row.id == new_wallet.id,
        row.account_id == new_wallet.account_id,
        row.name == new_wallet.name,
        rows@.len() == new_wallet.initial_events@.len(),
        rows@[i].id == new_wallet.id,
        rows@[i].sequence == i + 1,
        rows@[i].event == new_wallet.initial_events@[i],
{
    assert(rows@[i].id == new_wallet.id);
}

/// A wallet is looked for on the network that the wallets were opened for.
pub proof fn law_wallets_are_of_their_network(network: Network, wallets: Wallets)
    requires
        call_ensures(Wallets::new, (network,), wallets),
    ensures
        wallets.network == network,
{
}

/// A wallet is not found by its name exactly if there are no rows; else what is found is
/// made of the events of all rows, each under its number, on the network of the wallets.
pub proof fn law_names_find_all_events<E, W, X, F: Fn(Network, EntityEvents<E>) -> Result<W, X>>(
    wallets: Wallets,
    rows: Vec<WalletEventRow<E>>,
    from_events: F,
    found: Result<W, WalletLookupError<X>>,
)
    requires
        call_ensures(
            Wallets::find_by_name::<E, W, X, F>,
            (&wallets, rows, from_events),
            found,
        ),
    ensures
        rows@.len() == 0 <==> found matches Err(WalletLookupError::WalletNotFound),
        rows@.len() > 0 ==> exists|events: EntityEvents<E>, made: Result<W, X>|
            {
                &&& #[trigger] call_ensures(from_events, (wallets.network, events), made)
                &&& events.events@.len() == rows@.len()
                &&& forall|i: int|
                    0 <= i < rows@.len() ==> #[trigger] events.events@[i] == (
                        rows@[i].sequence as usize,
                        rows@[i].event,
                    )
                &&& match made {
                    Ok(wallet) => found == Ok::<W, WalletLookupError<X>>(wallet),
                    Err(error) => found == Err::<W, WalletLookupError<X>>(
                        WalletLookupError::Entity(error),
                    ),
                }
            },
{
    if rows@.len() > 0 {
        let all = rows@.map_values(|row: WalletEventRow<E>| loaded(row));
        let made = match found {
            Ok(wallet) => Ok::<W, X>(wallet),
            Err(WalletLookupError::Entity(error)) => Err::<W, X>(error),
            Err(WalletLookupError::WalletNotFound) => arbitrary(),
        };
        assert(made_from(from_events, wallets.network, all, made));
        let events = choose|events: EntityEvents<E>|
            events@ == all && #[trigger] call_ensures(
                from_events,
                (wallets.network, events),
                made,
            );
        assert(call_ensures(from_events, (wallets.network, events), made));
        assert forall|i: int| 0 <= i < rows@.len() implies #[trigger] events.events@[i] == (
            rows@[i].sequence as usize,
            rows@[i].event,
        ) by {
            assert(events.events@[i] == all[i]);
        }
    }
}

/// Of the wallets with rows every one is found by its id, and no other, each made of the
/// events of its own rows, on the network of the wallets.
pub proof fn law_ids_find_their_own_events<
    E,
    W,
    X,
    F: Fn(Network, EntityEvents<E>) -> Result<W, X>,
>(
    wallets: Wallets,
    rows: Vec<WalletEventRow<E>>,
    from_events: F,
    res: Result<HashMap<WalletId, W>, X>,
    id: WalletId,
)
    requires
        call_ensures(
            Wallets::find_by_ids::<E, W, X, F>,
            (&wallets, rows, from_events),
            res,
        ),
        res is Ok,
    ensures
        res->Ok_0@.contains_key(id) <==> exists|i: int|
            0 <= i < rows@.len() && (#[trigger] rows@[i]).id == id,
        res->Ok_0@.contains_key(id) ==> exists|events: EntityEvents<E>|
            events.events@ == events_of(rows@, id) && #[trigger] call_ensures(
                from_events,
                (wallets.network, events),
                Ok::<W, X>(res->Ok_0@[id]),
            ),
{
    assert(res->Ok_0@.contains_key(id) <==> has_events(rows@, id));
    if res->Ok_0@.contains_key(id) {
        let made = Ok::<W, X>(res->Ok_0@[id]);
        let own = events_of(rows@, id);
        assert(made_from(from_events, wallets.network, own, made));
        let events = choose|events: EntityEvents<E>|
            events@ == own && #[trigger] call_ensures(
                from_events,
                (wallets.network, events),
                made,
            );
        assert(call_ensures(from_events, (wallets.network, events), made));
    }
}

/// Where looking for all wallets fails, it fails with the error of a wallet that has rows.
pub proof fn law_failures_come_from_wallets_with_rows<
    E,
    W,
    X,
    F: Fn(Network, EntityEvents<E>) -> Result<W, X>,
>(wallets: Wallets, rows: Vec<WalletEventRow<E>>, from_events: F, error: X)
    requires
        call_ensures(
            Wallets::find_by_ids::<E, W, X, F>,
            (&wallets, rows, from_events),
            Err::<HashMap<WalletId, W>, X>(error),
        ),
    ensures
        exists|i: int, events: EntityEvents<E>|
            0 <= i < rows@.len() && events.events@ == events_of(rows@, (#[trigger] rows@[i]).id)
                && #[trigger] call_ensures(
                from_events,
                (wallets.network, events),
                Err::<W, X>(error),
            ),
{
    let made = Err::<W, X>(error);
    let id = choose|id: WalletId| #[trigger]
        has_events(rows@, id) && made_from(
            from_events,
            wallets.network,
            events_of(rows@, id),
            made,
        );
    let i = choose|i: int| 0 <= i < rows@.len() && (#[trigger] rows@[i]).id == id;
    let events = choose|events: EntityEvents<E>|
        events@ == events_of(rows@, id) && #[trigger] call_ensures(
            from_events,
            (wallets.network, events),
            made,
        );
    assert(rows@[i].id == id);
    assert(call_ensures(from_events, (wallets.network, events), made));
}

/// A wallet that is found by its id is made of the events of its rows; one that is not
/// found has no rows.
pub proof fn law_one_id_finds_one_wallet<
    E,
    W,
    X,
    F: Fn(Network, EntityEvents<E>) -> Result<W, X>,
>(
    wallets: Wallets,
    id: WalletId,
    rows: Vec<WalletEventRow<E>>,
    from_events: F,
    found: Result<W, WalletLookupError<X>>,
)
    requires
        call_ensures(
            Wallets::find_by_id::<E, W, X, F>,
            (&wallets, id, rows, from_events),
            found,
        ),
    ensures
        found matches Err(WalletLookupError::WalletNotFound) ==> forall|i: int|
            0 <= i < rows@.len() ==> (#[trigger] rows@[i]).id != id,
        found matches Ok(wallet) ==> {
            &&& exists|i: int| 0 <= i < rows@.len() && (#[trigger] rows@[i]).id == id
            &&& exists|events: EntityEvents<E>|
                events.events@ == events_of(rows@, id) && #[trigger] call_ensures(
                    from_events,
                    (wallets.network, events),
                    Ok::<W, X>(wallet),
                )
        },
        found matches Err(WalletLookupError::Entity(error)) ==> exists|
            i: int,
            events: EntityEvents<E>,
        |
            0 <= i < rows@.len() && events.events@ == events_of(rows@, (#[trigger] rows@[i]).id)
                && #[trigger] call_ensures(
                from_events,
                (wallets.network, events),
                Err::<W, X>(error),
            ),
{
    match found {
        Ok(wallet) => {
            let made = Ok::<W, X>(wallet);
            let own = events_of(rows@, id);
            assert(made_from(from_events, wallets.network, own, made));
            let events = choose|events: EntityEvents<E>|
                events@ == own && #[trigger] call_ensures(
                    from_events,
                    (wallets.network, events),
                    made,
                );
            assert(call_ensures(from_events, (wallets.network, events), made));
        },
        Err(WalletLookupError::WalletNotFound) => {
            assert forall|i: int| 0 <= i < rows@.len() implies (#[trigger] rows@[i]).id != id by {
                assert(!has_events(rows@, id));
            }
        },
        Err(WalletLookupError::Entity(error)) => {
            let made = Err::<W, X>(error);
            let other = choose|other: WalletId| #[trigger]
                has_events(rows@, other) && made_from(
                    from_events,
                    wallets.network,
                    events_of(rows@, other),
                    made,
                );
            let i = choose|i: int| 0 <= i < rows@.len() && (#[trigger] rows@[i]).id == other;
            let events = choose|events: EntityEvents<E>|
                events@ == events_of(rows@, other) && #[trigger] call_ensures(
                    from_events,
                    (wallets.network, events),
                    made,
                );
            assert(rows@[i].id == other);
            assert(call_ensures(from_events, (wallets.network, events), made));
        },
    }
}

} // verus!
