use vstd::prelude::*;
use crate::command::Command;
use crate::result::Error;
use super::Stack;
use fnv::FnvHashMap;

verus! {

#[verifier::external_type_specification]
#[verifier::external_body]
pub struct ExFnvHasher(fnv::FnvHasher);

#[verifier::external_type_specification]
#[verifier::external_body]
#[verifier::reject_recursive_types(H)]
pub struct ExBuildHasherDefault<H>(std::hash::BuildHasherDefault<H>);

/// Calls `HashMap::default` for an `FnvHashMap`: an empty map.
#[verifier::external_body]
fn fnv_new<V>() -> (created: FnvHashMap<u32, V>)
    ensures
        created@.dom().is_empty(),
{
    FnvHashMap::default()
}

/// Calls `HashMap::with_capacity_and_hasher` for an `FnvHashMap`: an empty map.
#[verifier::external_body]
fn fnv_with_capacity<V>(capacity: usize) -> (created: FnvHashMap<u32, V>)
    ensures
        created@.dom().is_empty(),
{
    FnvHashMap::with_capacity_and_hasher(capacity, Default::default())
}

/// Calls `HashMap::capacity` for an `FnvHashMap`: at least its number of
/// entries, as its documentation says.
#[verifier::external_body]
fn fnv_capacity<V>(m: &FnvHashMap<u32, V>) -> (c: usize)
    ensures
        c >= m@.len(),
{
    m.capacity()
}

/// Calls `HashMap::len` for an `FnvHashMap`: its number of entries.
#[verifier::external_body]
fn fnv_len<V>(m: &FnvHashMap<u32, V>) -> (n: usize)
    ensures
        n == m@.len(),
{
    m.len()
}

/// Calls `HashMap::insert` for an `FnvHashMap`: `k` maps to `v` afterwards,
/// and the value `k` mapped to before, if any, is returned.
#[verifier::external_body]
fn fnv_insert<V>(m: &mut FnvHashMap<u32, V>, k: u32, v: V) -> (previous: Option<V>)
    ensures
        final(m)@ == old(m)@.insert(k, v),
        previous == (if old(m)@.contains_key(k) { Some(old(m)@[k]) } else { None }),
{
    m.insert(k, v)
}

/// Calls `HashMap::remove` for an `FnvHashMap`: `k` maps to nothing
/// afterwards, and the value it mapped to before, if any, is returned.
#[verifier::external_body]
fn fnv_remove<V>(m: &mut FnvHashMap<u32, V>, k: u32) -> (removed: Option<V>)
    ensures
        final(m)@ == old(m)@.remove(k),
        removed == (if old(m)@.contains_key(k) { Some(old(m)@[k]) } else { None }),
{
    m.remove(&k)
}

/// Calls `HashMap::get` for an `FnvHashMap`: the value `k` maps to, if any.
#[verifier::external_body]
fn fnv_get<V>(m: &FnvHashMap<u32, V>, k: u32) -> (value: Option<&V>)
    ensures
        value == (if m@.contains_key(k) { Some(&m@[k]) } else { None }),
{
    m.get(&k)
}

/// A key of a stack in a collection of stacks.
#[derive(Clone, Copy, Debug, PartialEq, Eq, Hash, Structural)]
pub struct Key(u32);

impl Key {
    /// The number of the key.
    pub closed spec fn id(&self) -> u32 {
        self.0
    }
}

/// A collection of stacks.
///
/// `Stacks` can be used when working with multiple stacks and only one of
/// them should be active at the same time, for example a text editor with
/// multiple documents opened.
pub struct Stacks<C: Command> {
    stacks: FnvHashMap<u32, Stack<C>>,
    active: Option<Key>,
    key: u32,
}

impl<C: Command> Stacks<C> {
    /// The stacks, by the numbers of their keys.
    pub closed spec fn stacks(&self) -> Map<u32, Stack<C>> {
        self.stacks@
    }

    /// The key of the active stack, if one is active.
    pub closed spec fn active(&self) -> Option<Key> {
        self.active
    }

    /// The number of the next key handed out.
    pub closed spec fn next_key(&self) -> u32 {
        self.key
    }

    /// Every stack has a key that was handed out.
    pub open spec fn inv(&self) -> bool {
        &&& self.stacks().dom().finite()
        &&& forall|k: u32| #[trigger] self.stacks().contains_key(k) ==> k < self.next_key()
    }

    /// Creates a new collection.
    pub fn new() -> (s: Stacks<C>)
        ensures
            s.inv(),
            s.stacks() == Map::<u32, Stack<C>>::empty(),
            s.active() is None,
            s.next_key() == 0,
    {
        Stacks { stacks: fnv_new(), active: None, key: 0 }
    }

    /// Creates a new collection with the specified capacity.
    pub fn with_capacity(capacity: usize) -> (s: Stacks<C>)
        ensures
            s.inv(),
            s.stacks() == Map::<u32, Stack<C>>::empty(),
            s.active() is None,
            s.next_key() == 0,
    {
        Stacks { stacks: fnv_with_capacity(capacity), active: None, key: 0 }
    }

    /// Returns the capacity of the collection.
    pub fn capacity(&self) -> (c: usize)
        ensures
            c >= self.stacks().len(),
    {
        fnv_capacity(&self.stacks)
    }

    /// Returns the number of stacks in the collection.
    pub fn len(&self) -> (n: usize)
        ensures
            n == self.stacks().len(),
    {
        fnv_len(&self.stacks)
    }

    /// Returns `true` if the collection is empty.
    pub fn is_empty(&self) -> (b: bool)
        ensures
            b == (self.stacks().len() == 0),
    {
        fnv_len(&self.stacks) == 0
    }

    /// Returns a reference to the `receiver` of the active stack.
    pub fn as_receiver(&self) -> (r: Option<&C::Target>)
        ensures
            self.active() matches Some(k) && self.stacks().contains_key(k.id())
                ==> r == Some(&self.stacks()[self.active().unwrap().id()].view_receiver()),
            !(self.active() matches Some(k) && self.stacks().contains_key(k.id())) ==> r is None,
    {
        match self.active {
            Some(active) => match fnv_get(&self.stacks, active.0) {
                Some(stack) => Some(stack.as_receiver()),
                None => None,
            },
            None => None,
        }
    }

    /// Adds a stack to the collection and returns a unique key for it.
    ///
    /// The stack is set as the active one if there is *not* already an active stack.
    pub fn add(&mut self, stack: Stack<C>) -> (key: Key)
        requires
            old(self).inv(),
            old(self).next_key() < u32::MAX,
        ensures
            final(self).inv(),
            key.id() == old(self).next_key(),
            !old(self).stacks().contains_key(key.id()),
            final(self).next_key() == old(self).next_key() + 1,
            final(self).stacks() == old(self).stacks().insert(key.id(), stack),
            final(self).stacks().len() == old(self).stacks().len() + 1,
            final(self).active() == (if old(self).active() is None { Some(key) } else { old(self).active() }),
    {
        let key = Key(self.key);
        self.key = self.key + 1;
        fnv_insert(&mut self.stacks, key.0, stack);
        assert forall|k: u32| #[trigger] self.stacks().contains_key(k) implies k < self.key by {
            if k != key.0 {
                assert(old(self).stacks().contains_key(k));
            }
        }
        if self.active.is_none() {
            self.set_active(Some(key));
        }
        key
    }

    /// Removes the stack with the specified key from the collection and
    /// returns it. Returns `None` if the stack was not found.
    pub fn remove(&mut self, key: Key) -> (removed: Option<Stack<C>>)
        requires
            old(self).inv(),
        ensures
            final(self).inv(),
            final(self).next_key() == old(self).next_key(),
            final(self).stacks() == old(self).stacks().remove(key.id()),
            removed == (if old(self).stacks().contains_key(key.id()) { Some(old(self).stacks()[key.id()]) } else { None }),
            final(self).stacks().len() == (if removed is Some { old(self).stacks().len() - 1 } else { old(self).stacks().len() as int }),
            final(self).active() == (if old(self).active() == Some(key) { None } else { old(self).active() }),
    {
        // Check if it was the active stack that was removed.
        if let Some(active) = self.active {
            if active == key {
                self.set_active(None);
            }
        }
        let removed = fnv_remove(&mut self.stacks, key.0);
        assert forall|k: u32| #[trigger] self.stacks().contains_key(k) implies k < self.key by {
            assert(old(self).stacks().contains_key(k));
        }
        removed
    }

    /// Sets the stack with the specified key as the current active one.
    pub fn set_active(&mut self, key: Option<Key>)
        ensures
            final(self).active() == key,
            final(self).stacks() == old(self).stacks(),
            final(self).next_key() == old(self).next_key(),
    {
        self.active = key;
    }

    /// Returns the stacks with their keys, in the order of the keys.
    pub fn iter(&self) -> (v: Vec<(Key, &Stack<C>)>)
        requires
            self.inv(),
        ensures
            forall|i: int| 0 <= i < v@.len() ==> {
                &&& self.stacks().contains_key(#[trigger] v@[i].0.id())
                &&& *v@[i].1 == self.stacks()[v@[i].0.id()]
            },
            forall|i: int, j: int| 0 <= i < j < v@.len() ==> v@[i].0.id() < v@[j].0.id(),
            forall|k: u32| #[trigger] self.stacks().contains_key(k) ==> exists|i: int| 0 <= i < v@.len() && v@[i].0.id() == k,
    {
        let mut v: Vec<(Key, &Stack<C>)> = Vec::new();
        let mut k: u32 = 0;
        while k < self.key
            invariant
                k <= self.key,
                self.inv(),
                forall|i: int| 0 <= i < v@.len() ==> {
                    &&& self.stacks().contains_key(#[trigger] v@[i].0.id())
                    &&& *v@[i].1 == self.stacks()[v@[i].0.id()]
                    &&& v@[i].0.id() < k
                },
                forall|i: int, j: int| 0 <= i < j < v@.len() ==> v@[i].0.id() < v@[j].0.id(),
                forall|key: u32| key < k && #[trigger] self.stacks().contains_key(key)
                    ==> exists|i: int| 0 <= i < v@.len() && v@[i].0.id() == key,
            decreases self.key - k,
        {
            let ghost before = v@;
            match fnv_get(&self.stacks, k) {
                Some(stack) => {
                    v.push((Key(k), stack));
                    proof {
                        assert forall|key: u32| key < k + 1 && #[trigger] self.stacks().contains_key(key)
                            implies exists|i: int| 0 <= i < v@.len() && v@[i].0.id() == key by {
                            if key == k {
                                assert(v@[before.len() as int].0.id() == key);
                            } else {
                                let i = choose|i: int| 0 <= i < before.len() && before[i].0.id() == key;
                                assert(v@[i] == before[i]);
                            }
                        }
                    }
                },
                None => {},
            }
            k += 1;
        }
        v
    }

    /// Consumes the collection, returning the stacks with their keys, in the
    /// order of the keys.
    pub fn into_iter(self) -> (v: Vec<(Key, Stack<C>)>)
        requires
            self.inv(),
        ensures
            forall|i: int| 0 <= i < v@.len() ==> {
                &&& self.stacks().contains_key(#[trigger] v@[i].0.id())
                &&& v@[i].1 == self.stacks()[v@[i].0.id()]
            },
            forall|i: int, j: int| 0 <= i < j < v@.len() ==> v@[i].0.id() < v@[j].0.id(),
            forall|k: u32| #[trigger] self.stacks().contains_key(k) ==> exists|i: int| 0 <= i < v@.len() && v@[i].0.id() == k,
    {
        let ghost all = self.stacks();
        let Stacks { mut stacks, active: _, key } = self;
        let mut v: Vec<(Key, Stack<C>)> = Vec::new();
        let mut k: u32 = 0;
        while k < key
            invariant
                k <= key,
                forall|j: u32| #[trigger] all.contains_key(j) ==> j < key,
                forall|j: u32| k <= j ==> (#[trigger] stacks@.contains_key(j) <==> all.contains_key(j)),
                forall|j: u32| k <= j && #[trigger] stacks@.contains_key(j) ==> stacks@[j] == all[j],
                forall|i: int| 0 <= i < v@.len() ==> {
                    &&& all.contains_key(#[trigger] v@[i].0.id())
                    &&& v@[i].1 == all[v@[i].0.id()]
                    &&& v@[i].0.id() < k
                },
                forall|i: int, j: int| 0 <= i < j < v@.len() ==> v@[i].0.id() < v@[j].0.id(),
                forall|j: u32| j < k && #[trigger] all.contains_key(j)
                    ==> exists|i: int| 0 <= i < v@.len() && v@[i].0.id() == j,
            decreases key - k,
        {
            let ghost before = v@;
            let ghost map_before = stacks@;
            match fnv_remove(&mut stacks, k) {
                Some(stack) => {
                    v.push((Key(k), stack));
                    proof {
                        assert forall|j: u32| j < k + 1 && #[trigger] all.contains_key(j)
                            implies exists|i: int| 0 <= i < v@.len() && v@[i].0.id() == j by {
                            if j == k {
                                assert(v@[before.len() as int].0.id() == j);
                            } else {
                                let i = choose|i: int| 0 <= i < before.len() && before[i].0.id() == j;
                                assert(v@[i] == before[i]);
                            }
                        }
                    }
                },
                None => {},
            }
            assert forall|j: u32| k + 1 <= j implies (#[trigger] stacks@.contains_key(j) <==> all.contains_key(j)) by {
                assert(map_before.contains_key(j) <==> all.contains_key(j));
            }
            k += 1;
        }
        v
    }

    /// Calls `push` on the active stack, if there is one.
    ///
    /// Returns `Some(Ok)` if everything went fine, `Some(Err)` if something
    /// went wrong, and `None` if there is no active stack.
    pub fn push(&mut self, cmd: C) -> (r: Option<core::result::Result<(), Error<C>>>)
        requires
            old(self).inv(),
        ensures
            final(self).inv(),
            final(self).active() == old(self).active(),
            final(self).next_key() == old(self).next_key(),
            !(old(self).active() matches Some(k) && old(self).stacks().contains_key(k.id())) ==> {
                &&& r is None
                &&& final(self).stacks() == old(self).stacks()
            },
            old(self).active() matches Some(k) && old(self).stacks().contains_key(k.id()) ==> {
                let id = old(self).active().unwrap().id();
                &&& r is Some
                &&& final(self).stacks().dom() == old(self).stacks().dom()
                &&& forall|j: u32| j != id && #[trigger] old(self).stacks().contains_key(j)
                    ==> final(self).stacks()[j] == old(self).stacks()[j]
                &&& r matches Some(Ok(())) ==> Stack::pushed(&old(self).stacks()[id], &final(self).stacks()[id])
                &&& r matches Some(Err(_)) ==> final(self).stacks()[id].commands() == old(self).stacks()[id].commands()
            },
    {
        let id = match self.active {
            Some(active) => active.0,
            None => return None,
        };
        if fnv_get(&self.stacks, id).is_none() {
            return None;
        }
        let mut stack = match fnv_remove(&mut self.stacks, id) {
            Some(stack) => stack,
            None => return None,
        };
        let result = stack.push(cmd);
        fnv_insert(&mut self.stacks, id, stack);
        proof {
            assert(self.stacks@.dom() =~= old(self).stacks@.dom());
            assert forall|k: u32| #[trigger] self.stacks().contains_key(k) implies k < self.key by {
                assert(old(self).stacks().contains_key(k));
            }
        }
        Some(result)
    }

    /// Calls `pop` on the active stack, if there is one.
    ///
    /// Returns `Some(Ok)` if everything went fine, `Some(Err)` if something
    /// went wrong, and `None` if there is no active stack or if the stack is empty.
    pub fn pop(&mut self) -> (r: Option<core::result::Result<C, Error<C>>>)
        requires
            old(self).inv(),
        ensures
            final(self).inv(),
            final(self).active() == old(self).active(),
            final(self).next_key() == old(self).next_key(),
            !(old(self).active() matches Some(k) && old(self).stacks().contains_key(k.id())) ==> {
                &&& r is None
                &&& final(self).stacks() == old(self).stacks()
            },
            old(self).active() matches Some(k) && old(self).stacks().contains_key(k.id()) ==> {
                let id = old(self).active().unwrap().id();
                &&& final(self).stacks().dom() == old(self).stacks().dom()
                &&& forall|j: u32| j != id && #[trigger] old(self).stacks().contains_key(j)
                    ==> final(self).stacks()[j] == old(self).stacks()[j]
                &&& old(self).stacks()[id].commands().len() == 0 ==> r is None
                &&& old(self).stacks()[id].commands().len() > 0 ==> r is Some
                    && final(self).stacks()[id].commands() == old(self).stacks()[id].commands().drop_last()
            },
    {
        let id = match self.active {
            Some(active) => active.0,
            None => return None,
        };
        if fnv_get(&self.stacks, id).is_none() {
            return None;
        }
        let mut stack = match fnv_remove(&mut self.stacks, id) {
            Some(stack) => stack,
            None => return None,
        };
        let result = stack.pop();
        fnv_insert(&mut self.stacks, id, stack);
        proof {
            assert(self.stacks@.dom() =~= old(self).stacks@.dom());
            assert forall|k: u32| #[trigger] self.stacks().contains_key(k) implies k < self.key by {
                assert(old(self).stacks().contains_key(k));
            }
        }
        result
    }

    /// Adds a stack with a default receiver to the collection and returns a
    /// unique key for it.
    pub fn add_default(&mut self) -> (key: Key)
        where C::Target: Default,
        requires
            old(self).inv(),
            old(self).next_key() < u32::MAX,
        ensures
            final(self).inv(),
            key.id() == old(self).next_key(),
            final(self).next_key() == old(self).next_key() + 1,
            final(self).stacks().dom() == old(self).stacks().dom().insert(key.id()),
            final(self).stacks()[key.id()].commands() == Seq::<C>::empty(),
            final(self).active() == (if old(self).active() is None { Some(key) } else { old(self).active() }),
    {
        self.add(Stack::default())
    }
}

impl<C: Command> Default for Stacks<C> {
    fn default() -> (s: Stacks<C>)
        ensures
            s.inv(),
            s.stacks() == Map::<u32, Stack<C>>::empty(),
            s.active() is None,
    {
        Stacks::new()
    }
}

} // verus!
