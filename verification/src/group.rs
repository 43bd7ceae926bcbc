//! A group of records, one of which is active.

use vstd::prelude::*;
use std::collections::HashMap;
use std::collections::hash_map::RandomState;
use std::hash::{BuildHasher, Hash};
use vstd::std_specs::hash::{obeys_key_model, builds_valid_hashers};
use vstd::std_specs::iter::IteratorSpec;
use vstd::std_specs::cmp::PartialEqSpec;
use crate::command::{Command, Result, Signal};
use crate::record::Record;

verus! {

/// `RandomState::new` of std: a fresh, randomly seeded hasher builder, of
/// which nothing is claimed.
pub assume_specification[ RandomState::new ]() -> (s: RandomState);

/// Calls the user's function `f` with the key of the new active record, or
/// `None` when no record is active any more (`FnMut::call_mut` of std).
/// Nothing is claimed of what the function does.
#[verifier::external_body]
fn call_signal<K, G: FnMut(Option<&K>)>(f: &mut G, k: Option<&K>) {
    f(k)
}

/// Calls `HashMap::capacity` of std: the number of entries the map can hold
/// without reallocating, which its documentation promises is at least the
/// number of entries (claimed where the map's model stands for its entries).
#[verifier::external_body]
fn map_capacity<K, V, S>(m: &HashMap<K, V, S>) -> (c: usize)
    ensures
        obeys_key_model::<K>() && builds_valid_hashers::<S>() ==> c >= m@.len(),
{
    m.capacity()
}

/// Calls `HashMap::with_capacity_and_hasher` of std: an empty map that uses
/// `hasher`.
#[verifier::external_body]
fn map_with_capacity_and_hasher<K, V, S>(capacity: usize, hasher: S) -> (m: HashMap<K, V, S>)
    ensures
        m@.dom().is_empty(),
{
    HashMap::with_capacity_and_hasher(capacity, hasher)
}

/// Calls `HashMap::get_mut` of std on a key that is present: a mutable
/// reference to the value of `k`, which is what `k` maps to after the call.
#[verifier::external_body]
fn map_get_mut<'a, K: Hash + Eq, V, S: BuildHasher>(m: &'a mut HashMap<K, V, S>, k: &K) -> (v: &'a mut V)
    requires
        obeys_key_model::<K>(),
        builds_valid_hashers::<S>(),
        old(m)@.contains_key(*k),
    ensures
        *v == old(m)@[*k],
        final(m)@ == old(m)@.insert(*k, *final(v)),
{
    m.get_mut(k).unwrap()
}

/// A group of records, of which at most one is active at a time.
///
/// The group can be given a function that is called each time the active
/// record changes.
#[verifier::reject_recursive_types(K)]
#[verifier::reject_recursive_types(S)]
pub struct Group<K, C: Command, F, G, S> {
    records: HashMap<K, Record<C, F>, S>,
    active: Option<K>,
    signals: Option<G>,
    told: Ghost<Seq<Option<K>>>,
}

impl<K, C: Command, F, G, S> Group<K, C, F, G, S> {
    /// The records of the group, by their keys.
    pub closed spec fn records_map(&self) -> Map<K, Record<C, F>> {
        self.records@
    }

    /// The key of the active record, if one is set.
    pub closed spec fn active(&self) -> Option<K> {
        self.active
    }

    /// Whether a function is called when the active record changes.
    pub closed spec fn has_signals(&self) -> bool {
        self.signals is Some
    }

    /// What the signals function was told so far, oldest first: the key of
    /// each new active record, or `None` when none was active any more.
    pub closed spec fn signalled(&self) -> Seq<Option<K>> {
        self.told@
    }

    /// The active record, if one is set and present.
    pub open spec fn active_record(&self) -> Option<Record<C, F>> {
        match self.active() {
            Some(k) => if self.records_map().contains_key(k) { Some(self.records_map()[k]) } else { None },
            None => None,
        }
    }

    /// The keys behave as the map model needs, and every record is well formed.
    pub open spec fn inv(&self) -> bool {
        &&& obeys_key_model::<K>()
        &&& builds_valid_hashers::<S>()
        &&& forall|k: K| #[trigger] self.records_map().contains_key(k) ==> self.records_map()[k].inv()
    }
}

impl<K: Hash + Eq, C: Command, F, G: FnMut(Option<&K>)> Group<K, C, F, G, RandomState> {
    /// Returns a new group.
    pub fn new() -> (g: Group<K, C, F, G, RandomState>)
        ensures
            g.records_map() == Map::<K, Record<C, F>>::empty(),
            g.active() is None,
            !g.has_signals(),
            obeys_key_model::<K>() ==> g.inv(),
    {
        Group { records: HashMap::new(), active: None, signals: None, told: Ghost(Seq::empty()) }
    }
}

impl<K: Hash + Eq, C: Command, F: FnMut(Signal), G: FnMut(Option<&K>), S: BuildHasher> Group<K, C, F, G, S> {
    /// Returns a builder for a group.
    pub fn builder() -> (b: GroupBuilder<K, C, F, G, S>)
        ensures
            b.spec_capacity() == 0,
            b.spec_signals() is None,
    {
        GroupBuilder { capacity: 0, signals: None, keys: core::marker::PhantomData }
    }

    /// Returns the capacity of the group.
    pub fn capacity(&self) -> (c: usize)
        requires
            self.inv(),
        ensures
            c >= self.records_map().len(),
    {
        map_capacity(&self.records)
    }

    /// Returns the number of records in the group.
    pub fn len(&self) -> (n: usize)
        requires
            self.inv(),
        ensures
            n == self.records_map().len(),
    {
        self.records.len()
    }

    /// Returns `true` if the group is empty.
    pub fn is_empty(&self) -> (b: bool)
        ensures
            b == self.records_map().is_empty(),
    {
        self.records.is_empty()
    }

    /// Inserts a record into the group under `k`, and returns the record
    /// that was there before, if any.
    pub fn insert(&mut self, k: K, record: Record<C, F>) -> (previous: Option<Record<C, F>>)
        requires
            old(self).inv(),
            record.inv(),
        ensures
            final(self).inv(),
            final(self).records_map() == old(self).records_map().insert(k, record),
            previous == (if old(self).records_map().contains_key(k) { Some(old(self).records_map()[k]) } else { None }),
            final(self).active() == old(self).active(),
            final(self).has_signals() == old(self).has_signals(),
    {
        let previous = self.records.insert(k, record);
        assert forall|j: K| #[trigger] self.records_map().contains_key(j) implies self.records_map()[j].inv() by {
            if j != k {
                assert(old(self).records_map().contains_key(j));
            }
        }
        previous
    }

    /// Removes the record under `k` from the group and returns it, if there
    /// was one.
    pub fn remove(&mut self, k: &K) -> (removed: Option<Record<C, F>>)
        requires
            old(self).inv(),
        ensures
            final(self).inv(),
            final(self).records_map() == old(self).records_map().remove(*k),
            removed == (if old(self).records_map().contains_key(*k) { Some(old(self).records_map()[*k]) } else { None }),
            final(self).active() == old(self).active(),
            final(self).has_signals() == old(self).has_signals(),
    {
        let removed = self.records.remove(k);
        assert forall|j: K| #[trigger] self.records_map().contains_key(j) implies self.records_map()[j].inv() by {
            assert(old(self).records_map().contains_key(j));
        }
        removed
    }

    /// Gets a reference to the active record in the group.
    pub fn get(&self) -> (r: Option<&Record<C, F>>)
        requires
            self.inv(),
        ensures
            r matches Some(x) ==> self.active_record() == Some(*x),
            r is None ==> self.active_record() is None,
    {
        match &self.active {
            Some(active) => self.records.get(active),
            None => None,
        }
    }

    /// Gets a mutable reference to the active record in the group.
    pub fn get_mut(&mut self) -> (r: Option<&mut Record<C, F>>)
        requires
            old(self).inv(),
        ensures
            final(self).active() == old(self).active(),
            final(self).has_signals() == old(self).has_signals(),
            old(self).active_record() is None ==> r is None && final(self).records_map() == old(self).records_map(),
            old(self).active_record() is Some ==> r is Some,
            r matches Some(x) ==> {
                &&& old(self).active_record() == Some(*x)
                &&& final(self).records_map() == old(self).records_map().insert(old(self).active().unwrap(), *final(x))
            },
    {
        match &self.active {
            Some(active) => {
                if self.records.contains_key(active) {
                    Some(map_get_mut(&mut self.records, active))
                } else {
                    None
                }
            },
            None => None,
        }
    }

    /// Calls `set_saved(true)` on the active record.
    pub fn set_saved(&mut self) -> (r: Option<()>)
        requires
            old(self).inv(),
        ensures
            final(self).inv(),
            final(self).active() == old(self).active(),
            final(self).has_signals() == old(self).has_signals(),
            old(self).active_record() is None ==> r is None && final(self).records_map() == old(self).records_map(),
            old(self).active_record() matches Some(rec) ==> {
                let k = old(self).active().unwrap();
                &&& r is Some
                &&& final(self).records_map().dom() == old(self).records_map().dom()
                &&& forall|j: K| j != k && #[trigger] old(self).records_map().contains_key(j)
                    ==> final(self).records_map()[j] == old(self).records_map()[j]
                &&& final(self).records_map()[k].saved_at() == Some(rec.spec_current()) && final(self).records_map()[k].entries() == rec.entries() && final(self).records_map()[k].spec_current() == rec.spec_current()
            },
    {
        let active = match &self.active {
            Some(active) => active,
            None => return None,
        };
        if !self.records.contains_key(active) {
            return None;
        }
        let record = map_get_mut(&mut self.records, active);
        let result = record.set_saved(true);
        proof {
            let k = old(self).active().unwrap();
            assert(self.records_map().dom() =~= old(self).records_map().dom());
            assert forall|j: K| #[trigger] self.records_map().contains_key(j) implies self.records_map()[j].inv() by {
                assert(old(self).records_map().contains_key(j));
            }
        }
        Some(result)
    }

    /// Calls `set_saved(false)` on the active record.
    pub fn set_unsaved(&mut self) -> (r: Option<()>)
        requires
            old(self).inv(),
        ensures
            final(self).inv(),
            final(self).active() == old(self).active(),
            final(self).has_signals() == old(self).has_signals(),
            old(self).active_record() is None ==> r is None && final(self).records_map() == old(self).records_map(),
            old(self).active_record() matches Some(rec) ==> {
                let k = old(self).active().unwrap();
                &&& r is Some
                &&& final(self).records_map().dom() == old(self).records_map().dom()
                &&& forall|j: K| j != k && #[trigger] old(self).records_map().contains_key(j)
                    ==> final(self).records_map()[j] == old(self).records_map()[j]
                &&& final(self).records_map()[k].saved_at() is None && final(self).records_map()[k].entries() == rec.entries() && final(self).records_map()[k].spec_current() == rec.spec_current()
            },
    {
        let active = match &self.active {
            Some(active) => active,
            None => return None,
        };
        if !self.records.contains_key(active) {
            return None;
        }
        let record = map_get_mut(&mut self.records, active);
        let result = record.set_saved(false);
        proof {
            let k = old(self).active().unwrap();
            assert(self.records_map().dom() =~= old(self).records_map().dom());
            assert forall|j: K| #[trigger] self.records_map().contains_key(j) implies self.records_map()[j].inv() by {
                assert(old(self).records_map().contains_key(j));
            }
        }
        Some(result)
    }

    /// Calls the `apply` method on the active record.
    pub fn apply(&mut self, command: C) -> (r: Option<Result<C>>)
        requires
            old(self).inv(),
        ensures
            final(self).inv(),
            final(self).active() == old(self).active(),
            final(self).has_signals() == old(self).has_signals(),
            old(self).active_record() is None ==> r is None && final(self).records_map() == old(self).records_map(),
            old(self).active_record() matches Some(rec) ==> {
                let k = old(self).active().unwrap();
                &&& r is Some
                &&& final(self).records_map().dom() == old(self).records_map().dom()
                &&& forall|j: K| j != k && #[trigger] old(self).records_map().contains_key(j)
                    ==> final(self).records_map()[j] == old(self).records_map()[j]
                &&& Record::apply_step(&rec, &final(self).records_map()[k], (r matches Some(x) && x is Ok))
            },
    {
        let active = match &self.active {
            Some(active) => active,
            None => return None,
        };
        if !self.records.contains_key(active) {
            return None;
        }
        let record = map_get_mut(&mut self.records, active);
        let result = record.apply(command);
        proof {
            let k = old(self).active().unwrap();
            assert(self.records_map().dom() =~= old(self).records_map().dom());
            assert forall|j: K| #[trigger] self.records_map().contains_key(j) implies self.records_map()[j].inv() by {
                assert(old(self).records_map().contains_key(j));
            }
        }
        Some(result)
    }

    /// Calls the `undo` method on the active record.
    pub fn undo(&mut self) -> (r: Option<Result<C>>)
        requires
            old(self).inv(),
        ensures
            final(self).inv(),
            final(self).active() == old(self).active(),
            final(self).has_signals() == old(self).has_signals(),
            old(self).active_record() is None ==> r is None && final(self).records_map() == old(self).records_map(),
            old(self).active_record() matches Some(rec) ==> {
                let k = old(self).active().unwrap();
                &&& r is Some
                &&& final(self).records_map().dom() == old(self).records_map().dom()
                &&& forall|j: K| j != k && #[trigger] old(self).records_map().contains_key(j)
                    ==> final(self).records_map()[j] == old(self).records_map()[j]
                &&& Record::undo_step(&rec, &final(self).records_map()[k], (r matches Some(x) && x is Ok))
            },
    {
        let active = match &self.active {
            Some(active) => active,
            None => return None,
        };
        if !self.records.contains_key(active) {
            return None;
        }
        let record = map_get_mut(&mut self.records, active);
        let result = record.undo();
        proof {
            let k = old(self).active().unwrap();
            assert(self.records_map().dom() =~= old(self).records_map().dom());
            assert forall|j: K| #[trigger] self.records_map().contains_key(j) implies self.records_map()[j].inv() by {
                assert(old(self).records_map().contains_key(j));
            }
        }
        Some(result)
    }

    /// Calls the `redo` method on the active record.
    pub fn redo(&mut self) -> (r: Option<Result<C>>)
        requires
            old(self).inv(),
        ensures
            final(self).inv(),
            final(self).active() == old(self).active(),
            final(self).has_signals() == old(self).has_signals(),
            old(self).active_record() is None ==> r is None && final(self).records_map() == old(self).records_map(),
            old(self).active_record() matches Some(rec) ==> {
                let k = old(self).active().unwrap();
                &&& r is Some
                &&& final(self).records_map().dom() == old(self).records_map().dom()
                &&& forall|j: K| j != k && #[trigger] old(self).records_map().contains_key(j)
                    ==> final(self).records_map()[j] == old(self).records_map()[j]
                &&& Record::redo_step(&rec, &final(self).records_map()[k], (r matches Some(x) && x is Ok))
            },
    {
        let active = match &self.active {
            Some(active) => active,
            None => return None,
        };
        if !self.records.contains_key(active) {
            return None;
        }
        let record = map_get_mut(&mut self.records, active);
        let result = record.redo();
        proof {
            let k = old(self).active().unwrap();
            assert(self.records_map().dom() =~= old(self).records_map().dom());
            assert forall|j: K| #[trigger] self.records_map().contains_key(j) implies self.records_map()[j].inv() by {
                assert(old(self).records_map().contains_key(j));
            }
        }
        Some(result)
    }

    /// Calls the `is_saved` method on the active record.
    pub fn is_saved(&self) -> (r: Option<bool>)
        requires
            self.inv(),
        ensures
            r == (match self.active_record() {
                Some(rec) => Some(rec.spec_is_saved()),
                None => None,
            }),
    {
        match self.get() {
            Some(record) => Some(record.is_saved()),
            None => None,
        }
    }

    /// Returns the records of the group, in no particular order.
    pub fn records(&self) -> (v: Vec<&Record<C, F>>)
        requires
            self.inv(),
        ensures
            v@.len() == self.records_map().len(),
            v@.unref().to_set() == self.records_map().values(),
    {
        let mut v: Vec<&Record<C, F>> = Vec::new();
        let values = self.records.values();
        let ghost all = values.remaining();
        for r in iter: values
            invariant
                iter.seq() == all,
                v@ == all.take(iter.index() as int),
        {
            v.push(r);
        }
        proof {
            assert(v@ =~= all);
            assert(all == vstd::std_specs::hash::spec_values_iter(&self.records).remaining());
        }
        v
    }

    /// The records of the group for display, in no particular order: each
    /// with its key, and whether it is the active one.
    pub fn lines(&self) -> (v: Vec<(&K, &Record<C, F>, bool)>)
        requires
            self.inv(),
        ensures
            v@.len() == self.records_map().len(),
            forall|i: int| 0 <= i < v@.len() ==> {
                &&& self.records_map().contains_key(*#[trigger] v@[i].0)
                &&& self.records_map()[*v@[i].0] == *v@[i].1
                &&& K::obeys_eq_spec() ==> v@[i].2 == (self.active() matches Some(a) && a.eq_spec(v@[i].0))
            },
    {
        let mut v: Vec<(&K, &Record<C, F>, bool)> = Vec::new();
        let entries = self.records.iter();
        let ghost all = entries.remaining();
        for pair in iter: entries
            invariant
                iter.seq() == all,
                all == vstd::std_specs::hash::spec_hash_map_iter(&self.records).remaining(),
                v@.len() == iter.index(),
                forall|i: int| 0 <= i < v@.len() ==> #[trigger] v@[i].0 == all[i].0,
                forall|i: int| 0 <= i < v@.len() ==> #[trigger] v@[i].1 == all[i].1,
                forall|i: int| 0 <= i < v@.len() ==> K::obeys_eq_spec() ==> #[trigger] v@[i].2 == (self.active() matches Some(a) && a.eq_spec(v@[i].0)),
        {
            assert(pair == all[v@.len() as int]);
            let (key, record) = pair;
            let active = match &self.active {
                Some(a) => a.eq(key),
                None => false,
            };
            assert(K::obeys_eq_spec() ==> active == (self.active() matches Some(a) && a.eq_spec(key)));
            let ghost before = v@;
            v.push((key, record, active));
            assert forall|i: int| 0 <= i < v@.len() implies {
                &&& #[trigger] v@[i].0 == all[i].0
                &&& v@[i].1 == all[i].1
                &&& K::obeys_eq_spec() ==> v@[i].2 == (self.active() matches Some(a) && a.eq_spec(v@[i].0))
            } by {
                if i < before.len() {
                    assert(v@[i] == before[i]);
                    assert(before[i].0 == all[i].0);
                } else {
                    assert(i == before.len());
                    assert(v@[i].0 == key);
                    assert(key == all[i].0);
                    assert(v@[i].2 == active);
                }
            }
        }
        proof {
            assert forall|i: int| 0 <= i < v@.len() implies self.records_map().contains_key(*#[trigger] v@[i].0)
                && self.records_map()[*v@[i].0] == *v@[i].1 by {
                assert(v@[i].0 == all[i].0);
                assert(self.records@.contains_key(*all[i].0));
            }
        }
        v
    }

    /// Sets the record under `k` as the active one, if there is one; the
    /// signals function is told when the active record changes.
    ///
    /// Returns `None` if the record was set, otherwise `k` is returned.
    pub fn set(&mut self, k: K) -> (r: Option<K>)
        requires
            old(self).inv(),
        ensures
            final(self).inv(),
            final(self).records_map() == old(self).records_map(),
            final(self).has_signals() == old(self).has_signals(),
            old(self).records_map().contains_key(k) ==> r is None && final(self).active() == Some(k),
            !old(self).records_map().contains_key(k) ==> r == Some(k) && final(self).active() == old(self).active(),
            K::obeys_eq_spec() ==> final(self).signalled() == (if old(self).has_signals()
                && old(self).records_map().contains_key(k)
                && !(old(self).active() matches Some(a) && a.eq_spec(&k)) {
                old(self).signalled().push(Some(k))
            } else {
                old(self).signalled()
            }),
    {
        if self.records.contains_key(&k) {
            let changed = match &self.active {
                Some(a) => !a.eq(&k),
                None => true,
            };
            if changed {
                match &mut self.signals {
                    Some(f) => {
                        call_signal(f, Some(&k));
                        proof {
                            self.told@ = self.told@.push(Some(k));
                        }
                    },
                    None => {},
                }
            }
            self.active = Some(k);
            assert forall|j: K| #[trigger] self.records_map().contains_key(j) implies self.records_map()[j].inv() by {
                assert(old(self).records_map().contains_key(j));
            }
            None
        } else {
            Some(k)
        }
    }

    /// Unsets the active record in the group.
    pub fn unset(&mut self)
        requires
            old(self).inv(),
        ensures
            final(self).inv(),
            final(self).records_map() == old(self).records_map(),
            final(self).has_signals() == old(self).has_signals(),
            final(self).active() is None,
            final(self).signalled() == (if old(self).has_signals() && old(self).active() is Some {
                old(self).signalled().push(None)
            } else {
                old(self).signalled()
            }),
    {
        if self.active.is_some() {
            self.active = None;
            match &mut self.signals {
                Some(f) => {
                    call_signal(f, None);
                    proof {
                        self.told@ = self.told@.push(None);
                    }
                },
                None => {},
            }
        }
        assert forall|j: K| #[trigger] self.records_map().contains_key(j) implies self.records_map()[j].inv() by {
            assert(old(self).records_map().contains_key(j));
        }
    }
}

impl<K: Hash + Eq, C: Command + ToString, F, G, S: BuildHasher> Group<K, C, F, G, S> {
    /// Calls the `undo_text` method on the active record.
    pub fn to_undo_string(&self) -> (text: Option<String>)
        requires
            self.inv(),
        ensures
            text is Some <==> (self.active_record() matches Some(rec) && rec.spec_can_undo()),
    {
        match &self.active {
            Some(active) => match self.records.get(active) {
                Some(record) => record.undo_text(),
                None => None,
            },
            None => None,
        }
    }

    /// Calls the `redo_text` method on the active record.
    pub fn to_redo_string(&self) -> (text: Option<String>)
        requires
            self.inv(),
        ensures
            text is Some <==> (self.active_record() matches Some(rec) && rec.spec_can_redo()),
    {
        match &self.active {
            Some(active) => match self.records.get(active) {
                Some(record) => record.redo_text(),
                None => None,
            },
            None => None,
        }
    }
}

impl<K: Hash + Eq, C: Command, F, G> Default for Group<K, C, F, G, RandomState> {
    fn default() -> (g: Group<K, C, F, G, RandomState>)
        ensures
            g.records_map() == Map::<K, Record<C, F>>::empty(),
            g.active() is None,
            !g.has_signals(),
            obeys_key_model::<K>() ==> g.inv(),
    {
        Group { records: HashMap::new(), active: None, signals: None, told: Ghost(Seq::empty()) }
    }
}

/// Builder for a group.
pub struct GroupBuilder<K, C: Command, F, G, S> {
    capacity: usize,
    signals: Option<G>,
    keys: core::marker::PhantomData<(K, C, F, S)>,
}

impl<K, C: Command, F, G, S> GroupBuilder<K, C, F, G, S> {
    /// The capacity the group is built with.
    pub closed spec fn spec_capacity(&self) -> usize {
        self.capacity
    }

    /// The function the group is built with, if any.
    pub closed spec fn spec_signals(&self) -> Option<G> {
        self.signals
    }
}

impl<K: Hash + Eq, C: Command, F, G: FnMut(Option<&K>)> GroupBuilder<K, C, F, G, RandomState> {
    /// Creates the group.
    pub fn build(self) -> (g: Group<K, C, F, G, RandomState>)
        ensures
            g.records_map() == Map::<K, Record<C, F>>::empty(),
            g.active() is None,
            g.has_signals() == self.spec_signals() is Some,
            obeys_key_model::<K>() ==> g.inv(),
    {
        self.build_with_hasher(RandomState::new())
    }
}

impl<K: Hash + Eq, C: Command, F, G: FnMut(Option<&K>), S: BuildHasher> GroupBuilder<K, C, F, G, S> {
    /// Sets the capacity for the group.
    pub fn capacity(self, capacity: usize) -> (b: GroupBuilder<K, C, F, G, S>)
        ensures
            b.spec_capacity() == capacity,
            b.spec_signals() == self.spec_signals(),
    {
        GroupBuilder { capacity, ..self }
    }

    /// Decides what should happen when the active record changes.
    pub fn signals(self, f: G) -> (b: GroupBuilder<K, C, F, G, S>)
        ensures
            b.spec_capacity() == self.spec_capacity(),
            b.spec_signals() == Some(f),
    {
        GroupBuilder { signals: Some(f), ..self }
    }

    /// Creates the group with the given hasher.
    pub fn build_with_hasher(self, hasher: S) -> (g: Group<K, C, F, G, S>)
        ensures
            g.records_map() == Map::<K, Record<C, F>>::empty(),
            g.active() is None,
            g.has_signals() == self.spec_signals() is Some,
            obeys_key_model::<K>() && builds_valid_hashers::<S>() ==> g.inv(),
    {
        Group {
            records: map_with_capacity_and_hasher(self.capacity, hasher),
            active: None,
            signals: self.signals,
            told: Ghost(Seq::empty()),
        }
    }
}

} // verus!
