//! A map whose keys are transaction outputs.

use vstd::prelude::*;

use crate::primitives::OutPoint;

verus! {

/// A map from transaction outputs to values.
pub struct OutPointMap<V> {
    entries: Vec<(OutPoint, V)>,
}

impl<V> View for OutPointMap<V> {
    type V = Map<OutPoint, V>;

    closed spec fn view(&self) -> Map<OutPoint, V> {
        Map::new(
            |key: OutPoint| exists|i: int| 0 <= i < self.entries@.len() && self.entries@[i].0 == key,
            |key: OutPoint| self.entries@[self.index_of(key)].1,
        )
    }
}

impl<V> OutPointMap<V> {
    spec fn index_of(self, key: OutPoint) -> int {
        choose|i: int| 0 <= i < self.entries@.len() && #[trigger] self.entries@[i].0 == key
    }

    /// No output has two entries.
    #[verifier::type_invariant]
    spec fn keys_differ(self) -> bool {
        forall|i: int, j: int|
            0 <= i < j < self.entries@.len() ==> #[trigger] self.entries@[i].0
                != #[trigger] self.entries@[j].0
    }

    /// The empty map.
    pub fn new() -> (res: Self)
        ensures
            res@ == Map::<OutPoint, V>::empty(),
    {
        let res = OutPointMap { entries: Vec::new() };
        assert(res@ =~= Map::<OutPoint, V>::empty());
        res
    }

    fn find(&self, key: &OutPoint) -> (res: Option<usize>)
        ensures
            res is Some <==> self@.contains_key(*key),
            res matches Some(i) ==> i < self.entries@.len() && self.entries@[i as int].0 == *key
                && self@[*key] == self.entries@[i as int].1,
    {
        proof {
            use_type_invariant(self);
        }
        for i in 0..self.entries.len()
            invariant
                self.keys_differ(),
                forall|j: int| 0 <= j < i ==> self.entries@[j].0 != *key,
        {
            if self.entries[i].0 == *key {
                assert(self.entries@[i as int].0 == *key);
                assert(self.index_of(*key) == i);
                return Some(i);
            }
        }
        None
    }

    /// The value of `key`, if it has one.
    pub fn get(&self, key: &OutPoint) -> (res: Option<&V>)
        ensures
            match res {
                Some(value) => self@.contains_key(*key) && *value == self@[*key],
                None => !self@.contains_key(*key),
            },
    {
        match self.find(key) {
            Some(i) => Some(&self.entries[i].1),
            None => None,
        }
    }

    /// Has `key` a value?
    pub fn contains_key(&self, key: &OutPoint) -> (res: bool)
        ensures
            res == self@.contains_key(*key),
    {
        self.find(key).is_some()
    }

    /// Gives `key` the value `value`. Returns whether it had none before.
    pub fn insert(&mut self, key: OutPoint, value: V) -> (res: bool)
        ensures
            final(self)@ == old(self)@.insert(key, value),
            res == !old(self)@.contains_key(key),
    {
        proof {
            use_type_invariant(&*self);
        }
        let ghost before = *self;
        let place: usize = match self.find(&key) {
            Some(i) => i,
            None => self.entries.len(),
        };
        let mut entries = Vec::new();
        std::mem::swap(&mut self.entries, &mut entries);
        let is_new: bool = place == entries.len();
        if is_new {
            entries.push((key, value));
        } else {
            entries.set(place, (key, value));
        }
        proof {
            before.lemma_put(OutPointMap { entries }, place as int, key, value);
        }
        self.entries = entries;
        is_new
    }

    /// Putting `value` in the place of `key`, or behind all entries if it has none,
    /// gives `key` that value.
    proof fn lemma_put(self, now: Self, place: int, key: OutPoint, value: V)
        requires
            self.keys_differ(),
            if self@.contains_key(key) {
                &&& 0 <= place < self.entries@.len()
                &&& self.entries@[place].0 == key
                &&& now.entries@ == self.entries@.update(place, (key, value))
            } else {
                &&& place == self.entries@.len()
                &&& now.entries@ == self.entries@.push((key, value))
            },
        ensures
            now.keys_differ(),
            now@ == self@.insert(key, value),
    {
        let then = self@.insert(key, value);
        assert forall|j: int| 0 <= j < self.entries@.len() && j != place implies (
        #[trigger] self.entries@[j]).0 != key by {
            if self.entries@[j].0 == key {
                assert(self@.contains_key(key));
            }
        }
        assert(now.entries@[place].0 == key);
        assert forall|k: OutPoint| now@.contains_key(k) == then.contains_key(k) by {
            if self@.contains_key(k) && k != key {
                assert(now.entries@[self.index_of(k)].0 == k);
            }
            if now@.contains_key(k) && k != key {
                assert(self.entries@[now.index_of(k)].0 == k);
            }
        }
        assert forall|k: OutPoint| then.contains_key(k) implies now@[k] == then[k] by {
            assert(now@.contains_key(k));
            let n = now.index_of(k);
            assert(now.entries@[n].0 == k);
            if k != key {
                assert(self.entries@[self.index_of(k)].0 == k);
                assert(self.entries@[n].0 == k);
            }
        }
        assert(now@ =~= then);
    }
}

} // verus!
