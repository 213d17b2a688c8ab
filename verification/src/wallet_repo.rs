//! Putting wallets together from the events that the database holds.

use std::collections::HashMap;

use vstd::prelude::*;

use crate::placement::{keys_of, lists_once};
use crate::primitives::{AccountId, Network, WalletId};

verus! {

broadcast use vstd::std_specs::hash::group_hash_axioms;

/// A row of the table of wallet events.
pub struct WalletEventRow<E> {
    pub id: WalletId,
    pub sequence: i32,
    pub event: E,
}

/// The events of an entity in the order in which they were loaded, each with its
/// sequence number.
pub struct EntityEvents<E> {
    pub events: Vec<(usize, E)>,
}

impl<E> View for EntityEvents<E> {
    type V = Seq<(usize, E)>;

    open spec fn view(&self) -> Seq<(usize, E)> {
        self.events@
    }
}

impl<E> EntityEvents<E> {
    /// No events.
    pub fn new() -> (res: Self)
        ensures
            res@ == Seq::<(usize, E)>::empty(),
    {
        EntityEvents { events: Vec::new() }
    }

    /// Loads one more event.
    pub fn load_event(&mut self, sequence: usize, event: E)
        ensures
            final(self)@ == old(self)@.push((sequence, event)),
    {
        self.events.push((sequence, event));
    }
}

/// Why a wallet was not found.
pub enum WalletLookupError<X> {
    /// There is none.
    WalletNotFound,
    /// Its events do not make a wallet.
    Entity(X),
}

/// A wallet that is to be created.
pub struct NewWallet<E> {
    pub id: WalletId,
    pub account_id: AccountId,
    pub name: String,
    pub initial_events: Vec<E>,
}

/// A row of the table of wallets.
pub struct WalletRow {
    pub id: WalletId,
    pub account_id: AccountId,
    pub name: String,
}

/// The wallets of a network.
#[derive(Debug, Clone, Copy)]
pub struct Wallets {
    pub network: Network,
}

/// A row as a loaded event.
pub open spec fn loaded<E>(row: WalletEventRow<E>) -> (usize, E) {
    (row.sequence as usize, row.event)
}

/// The events that the rows hold of wallet `id`, in the order of the rows.
pub open spec fn events_of<E>(rows: Seq<WalletEventRow<E>>, id: WalletId) -> Seq<(usize, E)> {
    rows.filter(|row: WalletEventRow<E>| row.id == id).map_values(
        |row: WalletEventRow<E>| loaded(row),
    )
}

/// Is one of the rows one of wallet `id`?
pub open spec fn has_events<E>(rows: Seq<WalletEventRow<E>>, id: WalletId) -> bool {
    exists|i: int| 0 <= i < rows.len() && (#[trigger] rows[i]).id == id
}

/// May `from_events` make `made` of the given events?
pub open spec fn made_from<E, W, X, F: Fn(Network, EntityEvents<E>) -> Result<W, X>>(
    from_events: F,
    network: Network,
    events: Seq<(usize, E)>,
    made: Result<W, X>,
) -> bool {
    exists|loaded: EntityEvents<E>|
        loaded@ == events && #[trigger] call_ensures(from_events, (network, loaded), made)
}

/// The events of each wallet, in the order of the rows.
pub fn group_events<E>(rows: Vec<WalletEventRow<E>>) -> (res: HashMap<WalletId, EntityEvents<E>>)
    ensures
        forall|id: WalletId| #[trigger]
            res@.contains_key(id) <==> has_events(rows@, id),
        forall|id: WalletId| #[trigger]
            res@.contains_key(id) ==> res@[id]@ == events_of(rows@, id),
{
    let mut groups: HashMap<WalletId, EntityEvents<E>> = HashMap::new();
    for row in iter: rows
        invariant
            iter.seq() == rows@,
            forall|id: WalletId| #[trigger]
                groups@.contains_key(id) <==> has_events(rows@.take(iter.index()), id),
            forall|id: WalletId| #[trigger]
                groups@.contains_key(id) ==> groups@[id]@ == events_of(
                    rows@.take(iter.index()),
                    id,
                ),
    {
        let ghost n = iter.index();
        let ghost before = groups@;
        let id = row.id;
        proof {
            assert(rows@[n] == row);
            lemma_one_more_row(rows@, n);
            if !before.contains_key(id) {
                lemma_no_events(rows@.take(n), id);
            }
        }
        let mut events = match groups.remove(&id) {
            Some(events) => events,
            None => EntityEvents::new(),
        };
        events.load_event(row.sequence as usize, row.event);
        groups.insert(id, events);
    }
    assert(rows@.take(rows@.len() as int) =~= rows@);
    groups
}

proof fn lemma_one_more_row<E>(rows: Seq<WalletEventRow<E>>, n: int)
    requires
        0 <= n < rows.len(),
    ensures
        forall|id: WalletId| #[trigger]
            has_events(rows.take(n + 1), id) <==> has_events(rows.take(n), id) || rows[n].id == id,
        forall|id: WalletId| #[trigger]
            events_of(rows.take(n + 1), id) == if rows[n].id == id {
                events_of(rows.take(n), id).push(loaded(rows[n]))
            } else {
                events_of(rows.take(n), id)
            },
{
    let now = rows.take(n);
    let then = rows.take(n + 1);
    assert(then.drop_last() =~= now);
    assert forall|id: WalletId| #[trigger]
        has_events(then, id) <==> has_events(now, id) || rows[n].id == id by {
        if has_events(now, id) {
            let i = choose|i: int| 0 <= i < now.len() && (#[trigger] now[i]).id == id;
            assert(then[i].id == id);
        }
        if rows[n].id == id {
            assert(then[n].id == id);
        }
        if has_events(then, id) && rows[n].id != id {
            let i = choose|i: int| 0 <= i < then.len() && (#[trigger] then[i]).id == id;
            assert(now[i].id == id);
        }
    }
    assert forall|id: WalletId| #[trigger]
        events_of(then, id) == if rows[n].id == id {
            events_of(now, id).push(loaded(rows[n]))
        } else {
            events_of(now, id)
        } by {
        reveal(Seq::filter);
        assert(events_of(then, id) =~= if rows[n].id == id {
            events_of(now, id).push(loaded(rows[n]))
        } else {
            events_of(now, id)
        });
    }
}

proof fn lemma_no_events<E>(rows: Seq<WalletEventRow<E>>, id: WalletId)
    requires
        !has_events(rows, id),
    ensures
        events_of(rows, id) == Seq::<(usize, E)>::empty(),
    decreases rows.len(),
{
    reveal(Seq::filter);
    if rows.len() > 0 {
        assert(rows.last().id != id);
        let earlier = rows.drop_last();
        assert(!has_events(earlier, id)) by {
            if has_events(earlier, id) {
                let i = choose|i: int| 0 <= i < earlier.len() && (#[trigger] earlier[i]).id == id;
                assert(rows[i].id == id);
            }
        }
        lemma_no_events(earlier, id);
    }
    assert(events_of(rows, id) =~= Seq::<(usize, E)>::empty());
}

/// Are `rows` the rows of the given events of wallet `id`, numbered from 1 on?
pub open spec fn are_first_rows<E>(
    rows: Seq<WalletEventRow<E>>,
    id: WalletId,
    events: Seq<E>,
) -> bool {
    &&& rows.len() == events.len()
    &&& forall|i: int|
        0 <= i < rows.len() ==> {
            &&& (#[trigger] rows[i]).id == id
            &&& rows[i].sequence == i + 1
            &&& rows[i].event == events[i]
        }
}

impl Wallets {
    /// The rows that create a wallet: that of the wallet and those of its first
    /// events.
    pub fn create_in_tx<E>(&self, new_wallet: NewWallet<E>) -> (res: (
        WalletRow,
        Vec<WalletEventRow<E>>,
    ))
        requires
            new_wallet.initial_events@.len() <= i32::MAX,
        ensures
            res.0 == (WalletRow {
                id: new_wallet.id,
                account_id: new_wallet.account_id,
                name: new_wallet.name,
            }),
            are_first_rows(res.1@, new_wallet.id, new_wallet.initial_events@),
    {
        let id = new_wallet.id;
        let events = new_wallet.initial_events;
        let mut rows: Vec<WalletEventRow<E>> = Vec::new();
        let mut sequence: i32 = 0;
        for event in iter: events
            invariant
                iter.seq() == events@,
                events@.len() <= i32::MAX,
                sequence == iter.index(),
                are_first_rows(rows@, id, events@.take(iter.index())),
        {
            sequence = sequence + 1;
            rows.push(WalletEventRow { id, sequence, event });
        }
        assert(events@.take(events@.len() as int) =~= events@);
        let row = WalletRow { id, account_id: new_wallet.account_id, name: new_wallet.name };
        (row, rows)
    }

    /// The wallets of `network`.
    pub fn new(network: Network) -> (res: Self)
        ensures
            res.network == network,
    {
        Wallets { network }
    }

    /// The wallet that the rows found for a name hold.
    pub fn find_by_name<E, W, X, F: Fn(Network, EntityEvents<E>) -> Result<W, X>>(
        &self,
        rows: Vec<WalletEventRow<E>>,
        from_events: F,
    ) -> (res: Result<W, WalletLookupError<X>>)
        requires
            forall|network: Network, events: EntityEvents<E>|
                call_requires(from_events, (network, events)),
        ensures
            match res {
                Ok(wallet) => rows@.len() > 0 && made_from(
                    from_events,
                    self.network,
                    rows@.map_values(|row: WalletEventRow<E>| loaded(row)),
                    Ok(wallet),
                ),
                Err(WalletLookupError::WalletNotFound) => rows@.len() == 0,
                Err(WalletLookupError::Entity(error)) => rows@.len() > 0 && made_from(
                    from_events,
                    self.network,
                    rows@.map_values(|row: WalletEventRow<E>| loaded(row)),
                    Err(error),
                ),
            },
    {
        if rows.is_empty() {
            return Err(WalletLookupError::WalletNotFound);
        }
        let mut events = EntityEvents::new();
        for row in iter: rows
            invariant
                iter.seq() == rows@,
                events@ =~= rows@.take(iter.index()).map_values(
                    |row: WalletEventRow<E>| loaded(row),
                ),
        {
            events.load_event(row.sequence as usize, row.event);
        }
        assert(rows@.take(rows@.len() as int) =~= rows@);
        match from_events(self.network, events) {
            Ok(wallet) => Ok(wallet),
            Err(error) => Err(WalletLookupError::Entity(error)),
        }
    }

    /// The wallets that the given rows hold, by their ids.
    pub fn find_by_ids<E, W, X, F: Fn(Network, EntityEvents<E>) -> Result<W, X>>(
        &self,
        rows: Vec<WalletEventRow<E>>,
        from_events: F,
    ) -> (res: Result<HashMap<WalletId, W>, X>)
        requires
            forall|network: Network, events: EntityEvents<E>|
                call_requires(from_events, (network, events)),
        ensures
            match res {
                Ok(wallets) => {
                    &&& forall|id: WalletId| #[trigger]
                        wallets@.contains_key(id) <==> has_events(rows@, id)
                    &&& forall|id: WalletId| #[trigger]
                        wallets@.contains_key(id) ==> made_from(
                            from_events,
                            self.network,
                            events_of(rows@, id),
                            Ok::<W, X>(wallets@[id]),
                        )
                },
                Err(error) => exists|id: WalletId| #[trigger]
                    has_events(rows@, id) && made_from(
                        from_events,
                        self.network,
                        events_of(rows@, id),
                        Err::<W, X>(error),
                    ),
            },
    {
        let mut groups = group_events(rows);
        let order = keys_of(&groups);
        let ghost all = groups@;
        let mut wallets: HashMap<WalletId, W> = HashMap::new();
        for n in 0..order.len()
            invariant
                lists_once(order@, all.dom()),
                forall|network: Network, events: EntityEvents<E>|
                    call_requires(from_events, (network, events)),
                forall|id: WalletId| #[trigger]
                    all.contains_key(id) <==> has_events(rows@, id),
                forall|id: WalletId| #[trigger]
                    all.contains_key(id) ==> all[id]@ == events_of(rows@, id),
                forall|i: int|
                    n <= i < order@.len() ==> groups@.contains_key(#[trigger] order@[i])
                        && groups@[order@[i]] == all[order@[i]],
                forall|id: WalletId| #[trigger]
                    wallets@.contains_key(id) <==> exists|i: int|
                        0 <= i < n && #[trigger] order@[i] == id,
                forall|id: WalletId| #[trigger]
                    wallets@.contains_key(id) ==> made_from(
                        from_events,
                        self.network,
                        events_of(rows@, id),
                        Ok::<W, X>(wallets@[id]),
                    ),
        {
            let id = order[n];
            assert(order@.to_set().contains(id));
            assert(groups@.contains_key(order@[n as int]));
            if let Some(events) = groups.remove(&id) {
                match from_events(self.network, events) {
                    Ok(wallet) => {
                        wallets.insert(id, wallet);
                    },
                    Err(error) => {
                        assert(has_events(rows@, id));
                        return Err(error);
                    },
                }
            }
        }
        proof {
            assert forall|id: WalletId| #[trigger]
                wallets@.contains_key(id) <==> has_events(rows@, id) by {
                assert(all.contains_key(id) <==> order@.to_set().contains(id));
            }
        }
        Ok(wallets)
    }

    /// The wallet `id` among those that the given rows hold.
    pub fn find_by_id<E, W, X, F: Fn(Network, EntityEvents<E>) -> Result<W, X>>(
        &self,
        id: WalletId,
        rows: Vec<WalletEventRow<E>>,
        from_events: F,
    ) -> (res: Result<W, WalletLookupError<X>>)
        requires
            forall|network: Network, events: EntityEvents<E>|
                call_requires(from_events, (network, events)),
        ensures
            match res {
                Ok(wallet) => has_events(rows@, id) && made_from(
                    from_events,
                    self.network,
                    events_of(rows@, id),
                    Ok::<W, X>(wallet),
                ),
                Err(WalletLookupError::WalletNotFound) => !has_events(rows@, id),
                Err(WalletLookupError::Entity(error)) => exists|other: WalletId| #[trigger]
                    has_events(rows@, other) && made_from(
                        from_events,
                        self.network,
                        events_of(rows@, other),
                        Err::<W, X>(error),
                    ),
            },
    {
        match self.find_by_ids(rows, from_events) {
            Ok(mut wallets) => match wallets.remove(&id) {
                Some(wallet) => Ok(wallet),
                None => Err(WalletLookupError::WalletNotFound),
            },
            Err(error) => Err(WalletLookupError::Entity(error)),
        }
    }
}

} // verus!
