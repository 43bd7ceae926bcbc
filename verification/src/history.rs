//! A history of commands.

use vstd::prelude::*;
use crate::command::{Command, Result, Signal};
use crate::entry::{At, Entry, Timestamp};
use crate::format::{Format, Row};
use crate::record::{QueueCommand, Record, applies, sent, chronological, count_before, reversed, vec_capacity, vec_shrink_to_fit};

verus! {

/// A branch in the history: the position it grows from, and its commands.
pub struct Branch<C> {
    /// The position the branch grows from.
    pub parent: At,
    /// The commands of the branch, oldest first.
    pub entries: Vec<Entry<C>>,
}

impl<C> Branch<C> {
    /// Returns a branch of `entries` that grows from position `current` of `branch`.
    pub fn new(branch: usize, current: usize, entries: Vec<Entry<C>>) -> (b: Branch<C>)
        ensures
            b.parent == (At { branch, current }),
            b.entries == entries,
    {
        Branch { parent: At::new(branch, current), entries }
    }
}

/// The number of branches present in `slots`.
pub open spec fn live<C>(slots: Seq<Option<Branch<C>>>) -> nat
    decreases slots.len(),
{
    if slots.len() == 0 {
        0
    } else {
        live(slots.drop_last()) + if slots.last() is Some { 1nat } else { 0nat }
    }
}

/// Taking a branch out of a slot leaves one branch less.
pub proof fn lemma_live_take<C>(slots: Seq<Option<Branch<C>>>, i: int)
    requires
        0 <= i < slots.len(),
        slots[i] is Some,
    ensures
        live(slots.update(i, None)) + 1 == live(slots),
    decreases slots.len(),
{
    if i < slots.len() - 1 {
        assert(slots.update(i, None).drop_last() =~= slots.drop_last().update(i, None));
        lemma_live_take(slots.drop_last(), i);
    } else {
        assert(slots.update(i, None).drop_last() =~= slots.drop_last());
    }
}

/// Changing what a present branch holds leaves the number of branches alone.
pub proof fn lemma_live_set<C>(slots: Seq<Option<Branch<C>>>, i: int, b: Branch<C>)
    requires
        0 <= i < slots.len(),
        slots[i] is Some,
    ensures
        live(slots.update(i, Some(b))) == live(slots),
    decreases slots.len(),
{
    if i < slots.len() - 1 {
        assert(slots.update(i, Some(b)).drop_last() =~= slots.drop_last().update(i, Some(b)));
        lemma_live_set(slots.drop_last(), i, b);
    } else {
        assert(slots.update(i, Some(b)).drop_last() =~= slots.drop_last());
    }
}

/// A saved position `saved` outside the record lies in branch `new` at or
/// before `current`.
pub open spec fn moves_in(saved: Option<At>, new: usize, current: usize) -> bool {
    match saved {
        Some(at) => at.branch == new && at.current <= current,
        None => false,
    }
}

/// A history of commands.
///
/// Unlike a record, which keeps one line of commands, a history keeps a tree:
/// when a command is applied where commands could still be redone, those
/// commands are kept in a branch of their own, which can be gone back to.
/// Branches are numbered; the commands on the path to the current branch are
/// kept in a record.
pub struct History<C: Command, F> {
    root: usize,
    saved: Option<At>,
    record: Record<C, F>,
    // `branches[i]` holds branch `i`, if it is one; their number is the next
    // branch number to hand out.
    branches: Vec<Option<Branch<C>>>,
}

impl<C: Command, F> History<C, F> {
    /// The record of the current branch.
    pub closed spec fn record(&self) -> Record<C, F> {
        self.record
    }

    /// The number of the current branch.
    pub closed spec fn spec_branch(&self) -> usize {
        self.root
    }

    /// The number the next new branch gets.
    pub closed spec fn next(&self) -> nat {
        self.branches@.len()
    }

    /// The saved position, when it lies outside the current branch.
    pub closed spec fn saved_elsewhere(&self) -> Option<At> {
        self.saved
    }

    /// Branch number `id`, if there is one.
    pub closed spec fn branch_at(&self, id: int) -> Option<Branch<C>> {
        if 0 <= id < self.branches@.len() { self.branches@[id] } else { None }
    }

    /// The history is well formed: its record is, the current branch has a
    /// number that was handed out and is not among the other branches, and
    /// the saved position is known in at most one place.
    pub open spec fn inv(&self) -> bool {
        &&& self.record().inv()
        &&& self.spec_branch() < self.next()
        &&& self.branch_at(self.spec_branch() as int) is None
        &&& !(self.record().saved_at() is Some && self.saved_elsewhere() is Some)
    }

    /// The position of the current command.
    pub open spec fn spec_current(&self) -> usize {
        self.record().spec_current()
    }

    /// `other` has the same branches, current branch and saved position as `self`.
    pub open spec fn same_tree(&self, other: &Self) -> bool {
        &&& self.spec_branch() == other.spec_branch()
        &&& self.next() == other.next()
        &&& self.saved_elsewhere() == other.saved_elsewhere()
        &&& forall|id: int| #[trigger] self.branch_at(id) == other.branch_at(id)
    }

    /// `new` is `old` after a command was applied: the commands and position
    /// of the record moved as for a record (the saved position may have moved
    /// to or from another branch); the commands that could be redone, if
    /// any, are kept as a branch under the number of the old current branch,
    /// growing from the new current branch, which got the next number.
    pub open spec fn applied(old: &Self, new: &Self) -> bool {
        let cur = old.spec_current();
        &&& exists|r: Record<C, F>| #[trigger] Record::applied(&old.record(), &r) && r.inv()
            && r.entries() == new.record().entries() && r.spec_current() == new.spec_current()
        &&& cur < old.record().spec_len() ==> {
            &&& new.spec_branch() == old.next()
            &&& new.next() == old.next() + 1
            &&& new.branch_at(old.spec_branch() as int) matches Some(b)
            &&& b.parent == At::new_spec(old.next() as usize, cur)
            &&& b.entries@ == old.record().entries().skip(cur as int)
        }
        &&& cur == old.record().spec_len() ==> {
            &&& new.spec_branch() == old.spec_branch()
            &&& new.next() == old.next()
        }
        &&& forall|id: int| id != old.spec_branch() && #[trigger] new.branch_at(id) is Some ==> {
            &&& old.branch_at(id) is Some
            &&& new.branch_at(id).unwrap().entries == old.branch_at(id).unwrap().entries
        }
        &&& cur < old.record().spec_limit() ==>
            forall|id: int| #[trigger] old.branch_at(id) is Some ==> new.branch_at(id) is Some
        &&& exists|r: Record<C, F>, merged: bool| #[trigger] Self::parents_kept(old, new, r, merged)
    }

    /// Where a branch that grew from `p` grows from after a command was
    /// applied: when the oldest command was dropped at the limit, positions
    /// in the current branch move down by one; when commands were cut off,
    /// the branches that grew from the current branch at or before the cut
    /// grow from the new current branch; every other branch keeps its parent.
    pub open spec fn kept_parent(old: &Self, new: &Self, p: At, dropped: bool) -> At {
        if p.branch != old.spec_branch() {
            p
        } else if dropped {
            At::new_spec(p.branch, (p.current - 1) as usize)
        } else if old.spec_current() < old.record().spec_len() && p.current <= old.spec_current() {
            At::new_spec(new.spec_branch(), p.current)
        } else {
            p
        }
    }

    /// The record-level outcome of an apply, `merged` telling whether the
    /// command was merged or annulled, and the parents of the kept branches
    /// after it, as `kept_parent` says. The oldest command was dropped when
    /// the command was pushed at the limit.
    pub open spec fn parents_kept(old: &Self, new: &Self, r: Record<C, F>, merged: bool) -> bool {
        let dropped = !merged && old.spec_current() == old.record().spec_limit();
        &&& merged ==> Record::applied_merged(&old.record(), &r) || Record::applied_annulled(&old.record(), &r)
        &&& !merged ==> Record::applied_pushed(&old.record(), &r)
        &&& r.entries() == new.record().entries()
        &&& r.spec_current() == new.spec_current()
        &&& forall|id: int| id != old.spec_branch() && #[trigger] new.branch_at(id) is Some ==> {
            &&& old.branch_at(id) is Some
            &&& dropped && old.branch_at(id).unwrap().parent.branch == old.spec_branch()
                ==> old.branch_at(id).unwrap().parent.current > 0
            &&& new.branch_at(id).unwrap().parent
                == Self::kept_parent(old, new, old.branch_at(id).unwrap().parent, dropped)
        }
    }

    /// Returns a new history built on `record`, which becomes branch `0`.
    pub fn from_record(record: Record<C, F>) -> (h: History<C, F>)
        requires
            record.inv(),
        ensures
            h.inv(),
            h.record() == record,
            h.spec_branch() == 0,
            h.next() == 1,
            h.saved_elsewhere() is None,
            forall|id: int| #[trigger] h.branch_at(id) is None,
    {
        let mut branches = Vec::new();
        branches.push(None);
        History { root: 0, saved: None, record, branches }
    }

    /// Returns a new history.
    pub fn new(target: C::Target) -> (h: History<C, F>)
        ensures
            h.inv(),
            h.record().entries() == Seq::<Entry<C>>::empty(),
            h.spec_current() == 0,
            h.record().spec_limit() == usize::MAX,
            h.record().saved_at() == Some(0usize),
            h.record().view_target() == target,
            !h.record().connected(),
            h.spec_branch() == 0,
            h.next() == 1,
            h.saved_elsewhere() is None,
            forall|id: int| #[trigger] h.branch_at(id) is None,
    {
        History::from_record(Record::new(target))
    }

    /// Reserves capacity for at least `additional` more commands.
    pub fn reserve(&mut self, additional: usize)
        requires
            old(self).inv(),
        ensures
            final(self).inv(),
            final(self).record().entries() == old(self).record().entries(),
            final(self).spec_current() == old(self).spec_current(),
            final(self).record().same_frame(&old(self).record()),
            final(self).same_tree(old(self)),
    {
        self.record.reserve(additional);
    }

    /// Returns the capacity of the history.
    pub fn capacity(&self) -> (c: usize)
        ensures
            c >= self.record().spec_len(),
    {
        self.record.capacity()
    }

    /// Shrinks the capacity of the history as much as possible.
    pub fn shrink_to_fit(&mut self)
        requires
            old(self).inv(),
        ensures
            final(self).inv(),
            final(self).record().entries() == old(self).record().entries(),
            final(self).spec_current() == old(self).spec_current(),
            final(self).record().same_frame(&old(self).record()),
            final(self).same_tree(old(self)),
    {
        self.record.shrink_to_fit();
    }

    /// Returns the number of commands in the current branch of the history.
    pub fn len(&self) -> (n: usize)
        ensures
            n == self.record().spec_len(),
    {
        self.record.len()
    }

    /// Returns `true` if the current branch of the history is empty.
    pub fn is_empty(&self) -> (b: bool)
        ensures
            b == (self.record().spec_len() == 0),
    {
        self.record.is_empty()
    }

    /// Returns the limit of the history.
    pub fn limit(&self) -> (n: usize)
        ensures
            n == self.record().spec_limit(),
    {
        self.record.limit()
    }

    /// Sets how the signal should be handled when the state changes.
    ///
    /// The previous slot is returned if it exists.
    pub fn connect(&mut self, slot: F) -> (previous: Option<F>)
        requires
            old(self).inv(),
        ensures
            final(self).inv(),
            previous == old(self).record().view_slot(),
            final(self).record().view_slot() == Some(slot),
            final(self).record().entries() == old(self).record().entries(),
            final(self).spec_current() == old(self).spec_current(),
            final(self).record().saved_at() == old(self).record().saved_at(),
            final(self).record().spec_limit() == old(self).record().spec_limit(),
            final(self).same_tree(old(self)),
    {
        self.record.connect(slot)
    }

    /// Removes and returns the slot if it exists.
    pub fn disconnect(&mut self) -> (previous: Option<F>)
        requires
            old(self).inv(),
        ensures
            final(self).inv(),
            previous == old(self).record().view_slot(),
            final(self).record().view_slot() is None,
            final(self).record().entries() == old(self).record().entries(),
            final(self).spec_current() == old(self).spec_current(),
            final(self).record().saved_at() == old(self).record().saved_at(),
            final(self).record().spec_limit() == old(self).record().spec_limit(),
            final(self).same_tree(old(self)),
    {
        self.record.disconnect()
    }

    /// Returns `true` if the target is in a saved state, `false` otherwise.
    pub fn is_saved(&self) -> (b: bool)
        ensures
            b == self.record().spec_is_saved(),
    {
        self.record.is_saved()
    }

    /// Returns `true` if the history can undo.
    pub fn can_undo(&self) -> (b: bool)
        ensures
            b == self.record().spec_can_undo(),
    {
        self.record.can_undo()
    }

    /// Returns `true` if the history can redo.
    pub fn can_redo(&self) -> (b: bool)
        ensures
            b == self.record().spec_can_redo(),
    {
        self.record.can_redo()
    }

    /// Returns the current branch.
    #[verifier::when_used_as_spec(spec_branch)]
    pub fn branch(&self) -> (b: usize)
        ensures
            b == self.spec_branch(),
    {
        self.root
    }

    /// Returns the position of the current command.
    #[verifier::when_used_as_spec(spec_current)]
    pub fn current(&self) -> (n: usize)
        ensures
            n == self.spec_current(),
    {
        self.record.current()
    }

    /// Returns a reference to the `target`.
    pub fn target(&self) -> (t: &C::Target)
        ensures
            *t == self.record().view_target(),
    {
        self.record.target()
    }

    /// Returns a mutable reference to the `target`.
    ///
    /// This method should **only** be used when doing changes that should not be able to be undone.
    pub fn target_mut(&mut self) -> (t: &mut C::Target)
        requires
            old(self).inv(),
        ensures
            *t == old(self).record().view_target(),
            final(self).record().view_target() == *final(t),
            final(self).inv(),
            final(self).record().entries() == old(self).record().entries(),
            final(self).spec_current() == old(self).spec_current(),
            final(self).record().same_frame(&old(self).record()),
            final(self).same_tree(old(self)),
    {
        self.record.target_mut()
    }

    /// Consumes the history, returning the `target`.
    pub fn into_target(self) -> (t: C::Target)
        ensures
            t == self.record().view_target(),
    {
        self.record.into_target()
    }

    /// Takes the history apart: the number of the current branch, the saved
    /// position when it lies outside the current branch, the record of the
    /// current branch, and the branches by number.
    pub fn into_parts(self) -> (parts: (usize, Option<At>, Record<C, F>, Vec<Option<Branch<C>>>))
        ensures
            parts.0 == self.spec_branch(),
            parts.1 == self.saved_elsewhere(),
            parts.2 == self.record(),
            parts.3@.len() == self.next(),
            forall|id: int| 0 <= id < parts.3@.len() ==> #[trigger] parts.3@[id] == self.branch_at(id),
    {
        (self.root, self.saved, self.record, self.branches)
    }

    /// Puts a history together from its parts. Returns `None` unless the
    /// record is well formed, the current branch has a number below that of
    /// the branches and is not among them, and the saved position is known
    /// in at most one place.
    pub fn from_parts(
        root: usize,
        saved: Option<At>,
        record: Record<C, F>,
        branches: Vec<Option<Branch<C>>>,
    ) -> (h: Option<History<C, F>>)
        ensures
            h is Some <==> {
                &&& record.inv()
                &&& root < branches@.len()
                &&& branches@[root as int] is None
                &&& !(record.saved_at() is Some && saved is Some)
            },
            h matches Some(h) ==> {
                &&& h.inv()
                &&& h.spec_branch() == root
                &&& h.saved_elsewhere() == saved
                &&& h.record() == record
                &&& h.next() == branches@.len()
                &&& forall|id: int| 0 <= id < branches@.len() ==> #[trigger] h.branch_at(id) == branches@[id]
            },
    {
        if !record.is_well_formed() || root >= branches.len() || branches[root].is_some()
            || (record.is_saved_somewhere() && saved.is_some()) {
            return None;
        }
        Some(History { root, saved, record, branches })
    }

    /// The current position: the current branch and the position in it.
    fn at(&self) -> (at: At)
        ensures
            at == (At { branch: self.spec_branch(), current: self.spec_current() }),
    {
        At::new(self.root, self.record.current())
    }
}

impl<C: Command, F: FnMut(Signal)> History<C, F> {
    /// Marks the target as currently being in a saved or unsaved state.
    pub fn set_saved(&mut self, saved: bool)
        requires
            old(self).inv(),
        ensures
            final(self).inv(),
            final(self).saved_elsewhere() is None,
            final(self).record().saved_at() == (if saved { Some(old(self).spec_current()) } else { None }),
            final(self).record().entries() == old(self).record().entries(),
            final(self).spec_current() == old(self).spec_current(),
            final(self).record().spec_limit() == old(self).record().spec_limit(),
            final(self).record().connected() == old(self).record().connected(),
            final(self).spec_branch() == old(self).spec_branch(),
            final(self).next() == old(self).next(),
            forall|id: int| #[trigger] final(self).branch_at(id) == old(self).branch_at(id),
            final(self).record().signals() == old(self).record().told(
                sent(saved && !old(self).record().spec_is_saved(), Signal::Saved(true))
                + sent(!saved && old(self).record().spec_is_saved(), Signal::Saved(false))),
    {
        self.saved = None;
        self.record.set_saved(saved);
    }

    /// Removes all commands from the history without undoing them.
    pub fn clear(&mut self)
        requires
            old(self).inv(),
        ensures
            final(self).inv(),
            final(self).spec_branch() == 0,
            final(self).next() == 1,
            final(self).saved_elsewhere() is None,
            forall|id: int| #[trigger] final(self).branch_at(id) is None,
            final(self).record().entries() == Seq::<Entry<C>>::empty(),
            final(self).spec_current() == 0,
            final(self).record().saved_at() == (if old(self).record().spec_is_saved() { Some(0usize) } else { None }),
            final(self).record().spec_limit() == old(self).record().spec_limit(),
            final(self).record().connected() == old(self).record().connected(),
            final(self).record().signals() == old(self).record().told(
                sent(old(self).record().spec_can_undo(), Signal::Undo(false))
                + sent(old(self).record().spec_can_redo(), Signal::Redo(false))),
    {
        self.root = 0;
        self.saved = None;
        self.record.clear();
        let mut branches = Vec::new();
        branches.push(None);
        self.branches = branches;
    }

    /// Calls the `undo` method for the active command
    /// and sets the previous one as the new active one.
    ///
    /// # Errors
    /// If an error occurs when executing `undo` the error is returned.
    pub fn undo(&mut self) -> (r: Result<C>)
        requires
            old(self).inv(),
        ensures
            final(self).inv(),
            Record::undo_step(&old(self).record(), &final(self).record(), r is Ok),
            final(self).same_tree(old(self)),
    {
        self.record.undo()
    }

    /// Calls the `redo` method for the active command
    /// and sets the next one as the new active one.
    ///
    /// # Errors
    /// If an error occurs when executing `redo` the error is returned.
    pub fn redo(&mut self) -> (r: Result<C>)
        requires
            old(self).inv(),
        ensures
            final(self).inv(),
            Record::redo_step(&old(self).record(), &final(self).record(), r is Ok),
            final(self).same_tree(old(self)),
    {
        self.record.redo()
    }

    /// Moves the saved position between the record and branch `from`, when
    /// branch `new` becomes current at `current`: a saved position in branch
    /// `new` up to `current` moves into the record, and a saved position in
    /// the record moves out to branch `from`.
    fn swap_saved(&mut self, from: usize, new: usize, current: usize)
        requires
            old(self).record().inv(),
            !(old(self).record().saved_at() is Some && old(self).saved is Some),
        ensures
            final(self).record().inv(),
            !(final(self).record().saved_at() is Some && final(self).saved is Some),
            final(self).record().entries() == old(self).record().entries(),
            final(self).spec_current() == old(self).spec_current(),
            final(self).record().spec_limit() == old(self).record().spec_limit(),
            final(self).record().view_target() == old(self).record().view_target(),
            final(self).record().connected() == old(self).record().connected(),
            final(self).root == old(self).root,
            final(self).branches == old(self).branches,
            moves_in(old(self).saved, new, current) ==> {
                &&& final(self).saved is None
                &&& final(self).record().saved_at() == Some(old(self).saved.unwrap().current)
            },
            !moves_in(old(self).saved, new, current) && old(self).record().saved_at() is Some ==> {
                &&& final(self).saved == Some(At::new_spec(from, old(self).record().saved_at().unwrap()))
                &&& final(self).record().saved_at() is None
            },
            !moves_in(old(self).saved, new, current) && old(self).record().saved_at() is None ==> {
                &&& final(self).saved == old(self).saved
                &&& final(self).record().saved_at() is None
            },
    {
        let moves_in = match self.saved {
            Some(at) => at.branch == new && at.current <= current,
            None => false,
        };
        if moves_in {
            let at = self.saved.unwrap();
            self.saved = None;
            self.record.replace_saved(Some(at.current));
            self.record.emit(Signal::Saved(true));
        } else if let Some(saved) = self.record.saved_position() {
            self.saved = Some(At::new(from, saved));
            self.record.replace_saved(None);
            self.record.emit(Signal::Saved(false));
        }
    }

    /// Makes `root` the current branch at position `current`: the branches
    /// that grow from the old current branch at or before `current` now grow
    /// from `root`, and the saved position moves along.
    fn set_root(&mut self, root: usize, current: usize, saved: Option<usize>)
        requires
            old(self).record().inv(),
            root < old(self).branches@.len(),
            !(old(self).record().saved_at() is Some && old(self).saved is Some),
            saved is Some ==> old(self).saved is None,
        ensures
            final(self).record().inv(),
            final(self).root == root,
            final(self).branches@.len() == old(self).branches@.len(),
            forall|id: int| 0 <= id < old(self).branches@.len() ==>
                (#[trigger] final(self).branches@[id] is Some <==> old(self).branches@[id] is Some),
            forall|id: int| 0 <= id < old(self).branches@.len() && #[trigger] old(self).branches@[id] is Some
                && old(self).branches@[id].unwrap().parent.branch != old(self).root
                ==> final(self).branches@[id] == old(self).branches@[id],
            forall|id: int| 0 <= id < old(self).branches@.len() && #[trigger] final(self).branches@[id] is Some ==> {
                let b = old(self).branches@[id].unwrap();
                &&& final(self).branches@[id].unwrap().entries == b.entries
                &&& final(self).branches@[id].unwrap().parent.current == b.parent.current
                &&& final(self).branches@[id].unwrap().parent.branch
                    == (if b.parent.branch == old(self).root && b.parent.current <= current { root } else { b.parent.branch })
            },
            !(final(self).record().saved_at() is Some && final(self).saved is Some),
            final(self).record().saved_at() matches Some(x) ==> x <= current,
            final(self).record().entries() == old(self).record().entries(),
            final(self).spec_current() == old(self).spec_current(),
            final(self).record().spec_limit() == old(self).record().spec_limit(),
            final(self).record().view_target() == old(self).record().view_target(),
            final(self).record().connected() == old(self).record().connected(),
    {
        let prev = self.root;
        self.root = root;
        // The branches that grew from the old branch up to `current` now grow from `root`.
        let len = self.branches.len();
        let mut i: usize = 0;
        while i < len
            invariant
                len == self.branches@.len(),
                len == old(self).branches@.len(),
                0 <= i <= len,
                self.record == old(self).record,
                self.saved == old(self).saved,
                self.root == root,
                prev == old(self).root,
                forall|id: int| 0 <= id < len ==>
                    (#[trigger] self.branches@[id] is Some <==> old(self).branches@[id] is Some),
                forall|id: int| 0 <= id < len && #[trigger] old(self).branches@[id] is Some
                    && old(self).branches@[id].unwrap().parent.branch != prev
                    ==> self.branches@[id] == old(self).branches@[id],
                forall|id: int| i <= id < len ==> #[trigger] self.branches@[id] == old(self).branches@[id],
                forall|id: int| 0 <= id < i && #[trigger] self.branches@[id] is Some ==> {
                    let b = old(self).branches@[id].unwrap();
                    &&& self.branches@[id].unwrap().entries == b.entries
                    &&& self.branches@[id].unwrap().parent.current == b.parent.current
                    &&& self.branches@[id].unwrap().parent.branch
                        == (if b.parent.branch == prev && b.parent.current <= current { root } else { b.parent.branch })
                },
            decreases len - i,
        {
            match self.branches[i].take() {
                Some(mut branch) => {
                    if branch.parent.branch == prev && branch.parent.current <= current {
                        branch.parent.branch = root;
                    }
                    self.branches.set(i, Some(branch));
                },
                None => {},
            }
            i += 1;
        }
        let record_saved = self.record.is_saved_somewhere();
        match (record_saved, saved, self.saved) {
            (true, None, None) | (false, None, Some(_)) => self.swap_saved(root, prev, current),
            (_, Some(_), None) => {
                self.record.replace_saved(saved);
                self.swap_saved(prev, root, current);
            },
            _ => {},
        }
    }
}

impl<C: Command, F: FnMut(Signal)> History<C, F> {
    /// Removes the branches that grow from position `current` of `branch`,
    /// and the branches that grow from those, and so on.
    fn rm_child(&mut self, branch: usize, current: usize)
        ensures
            final(self).record == old(self).record,
            final(self).root == old(self).root,
            final(self).branches@.len() == old(self).branches@.len(),
            forall|id: int| 0 <= id < old(self).branches@.len() && #[trigger] final(self).branches@[id] is Some
                ==> final(self).branches@[id] == old(self).branches@[id],
            forall|id: int| 0 <= id < old(self).branches@.len() && #[trigger] final(self).branches@[id] is Some
                ==> final(self).branches@[id].unwrap().parent != At::new_spec(branch, current),
            final(self).saved is Some ==> final(self).saved == old(self).saved,
    {
        let ghost origin = At::new_spec(branch, current);
        let len = self.branches.len();
        // The branches that grow from the removed position.
        let mut dead: Vec<usize> = Vec::new();
        let mut i: usize = 0;
        while i < len
            invariant
                len == self.branches@.len(),
                self.branches == old(self).branches,
                self.record == old(self).record,
                self.root == old(self).root,
                self.saved == old(self).saved,
                origin == At::new_spec(branch, current),
                0 <= i <= len,
                forall|k: int| 0 <= k < i && #[trigger] self.branches@[k] is Some
                    && self.branches@[k].unwrap().parent == origin ==> dead@.contains(k as usize),
            decreases len - i,
        {
            let ghost found = dead@;
            let grows = match &self.branches[i] {
                Some(child) => child.parent.branch == branch && child.parent.current == current,
                None => false,
            };
            if grows {
                dead.push(i);
            }
            proof {
                assert forall|k: int| 0 <= k < i + 1 && #[trigger] self.branches@[k] is Some
                    && self.branches@[k].unwrap().parent == origin implies dead@.contains(k as usize) by {
                    if k == i {
                        assert(grows);
                        assert(dead@[dead@.len() - 1] == k as usize);
                    } else {
                        let j = choose|j: int| 0 <= j < found.len() && found[j] == k as usize;
                        assert(dead@[j] == found[j]);
                    }
                }
            }
            i += 1;
        }
        while dead.len() > 0
            invariant
                len == self.branches@.len(),
                self.record == old(self).record,
                self.root == old(self).root,
                forall|id: int| 0 <= id < len && #[trigger] self.branches@[id] is Some
                    ==> self.branches@[id] == old(self).branches@[id],
                self.saved is Some ==> self.saved == old(self).saved,
                forall|k: int| 0 <= k < len && #[trigger] self.branches@[k] is Some
                    && self.branches@[k].unwrap().parent == origin ==> dead@.contains(k as usize),
            decreases live(self.branches@), dead.len(),
        {
            let ghost pending = dead@;
            let parent = dead.pop().unwrap();
            proof {
                assert forall|k: int| 0 <= k < len && #[trigger] self.branches@[k] is Some
                    && self.branches@[k].unwrap().parent == origin && k != parent as int
                    implies dead@.contains(k as usize) by {
                    let j = choose|j: int| 0 <= j < pending.len() && pending[j] == k as usize;
                    assert(j != pending.len() - 1);
                    assert(dead@[j] == pending[j]);
                }
            }
            if parent < len && self.branches[parent].is_some() {
                // Remove the dead branch.
                proof {
                    lemma_live_take(self.branches@, parent as int);
                }
                self.branches.set(parent, None);
                self.saved = match self.saved {
                    Some(at) => if at.branch != parent { Some(at) } else { None },
                    None => None,
                };
                // Add the children of the dead branch so they are removed too.
                let ghost kept = dead@;
                let mut i: usize = 0;
                while i < len
                    invariant
                        len == self.branches@.len(),
                        0 <= i <= len,
                        forall|x: usize| kept.contains(x) ==> #[trigger] dead@.contains(x),
                    decreases len - i,
                {
                    let ghost so_far = dead@;
                    if let Some(child) = &self.branches[i] {
                        if child.parent.branch == parent {
                            dead.push(i);
                        }
                    }
                    proof {
                        assert forall|x: usize| kept.contains(x) implies #[trigger] dead@.contains(x) by {
                            assert(so_far.contains(x));
                            let j = choose|j: int| 0 <= j < so_far.len() && so_far[j] == x;
                            assert(dead@[j] == so_far[j]);
                        }
                    }
                    i += 1;
                }
            }
        }
    }

    /// Pushes the command to the top of the history and executes its `apply` method.
    ///
    /// When commands could still be redone, they are kept in a branch of
    /// their own, under the number of the branch that was current, and the
    /// current branch gets a new number.
    ///
    /// # Errors
    /// If an error occurs when executing `apply` the error is returned.
    pub fn apply(&mut self, command: C) -> (r: Result<C>)
        requires
            old(self).inv(),
        ensures
            final(self).inv(),
            final(self).record().spec_limit() == old(self).record().spec_limit(),
            final(self).record().connected() == old(self).record().connected(),
            r is Err ==> {
                &&& final(self).record().entries() == old(self).record().entries()
                &&& final(self).spec_current() == old(self).spec_current()
                &&& final(self).record().saved_at() == old(self).record().saved_at()
                &&& final(self).same_tree(old(self))
            },
            r is Ok ==> Self::applied(old(self), final(self)),
            r is Ok && !old(self).record().may_merge() ==> !final(self).record().spec_is_saved(),
            r is Ok && final(self).spec_current() == old(self).spec_current() + 1 ==> !final(self).record().spec_is_saved(),
    {
        let mut command = command;
        let applied = self.record.apply_on_target(&mut command);
        let ghost mid = *self;
        let r = self.record_applied(command, applied);
        proof {
            if r is Ok {
                let done = choose|done: Record<C, F>| #[trigger] Record::applied(&mid.record(), &done) && done.inv()
                    && done.entries() == self.record().entries() && done.spec_current() == self.spec_current();
                assert(Record::applied(&old(self).record(), &done));
                let (pr, pm) = choose|pr: Record<C, F>, pm: bool| #[trigger] Self::parents_kept(&mid, self, pr, pm);
                assert(pm ==> Record::applied_merged(&old(self).record(), &pr) || Record::applied_annulled(&old(self).record(), &pr));
                assert(!pm ==> Record::applied_pushed(&old(self).record(), &pr));
                assert(Self::parents_kept(old(self), self, pr, pm));
                let o = old(self);
                let cur = o.spec_current();
                assert(forall|id: int| #[trigger] mid.branch_at(id) == o.branch_at(id));
                if cur < o.record().spec_limit() {
                    assert forall|id: int| #[trigger] o.branch_at(id) is Some implies self.branch_at(id) is Some by {
                        assert(mid.branch_at(id) is Some);
                    }
                }
            }
        }
        r
    }

    /// Records `command`, whose `apply` was carried out on the target with
    /// the outcome `applied`. On failure the error is handed back and nothing
    /// changes; on success the command is recorded as `apply` does.
    pub fn record_applied(&mut self, command: C, applied: core::result::Result<(), C::Error>) -> (r: Result<C>)
        requires
            old(self).inv(),
        ensures
            final(self).inv(),
            final(self).record().spec_limit() == old(self).record().spec_limit(),
            final(self).record().connected() == old(self).record().connected(),
            r is Err ==> {
                &&& final(self).record().entries() == old(self).record().entries()
                &&& final(self).spec_current() == old(self).spec_current()
                &&& final(self).record().saved_at() == old(self).record().saved_at()
                &&& final(self).same_tree(old(self))
            },
            r is Ok ==> Self::applied(old(self), final(self)),
            applied matches Err(e) ==> r == Result::<C>::Err(e) && *final(self) == *old(self),
            applied is Ok ==> r is Ok,
            applied is Ok && !old(self).record().may_merge() ==> final(self).record().entries().last().command == command,
            applied is Ok && !old(self).record().may_merge() ==> !final(self).record().spec_is_saved(),
            applied is Ok && final(self).spec_current() == old(self).spec_current() + 1 ==> !final(self).record().spec_is_saved(),
            final(self).record().view_target() == old(self).record().view_target(),
    {
        let at = self.at();
        let saved = match self.record.saved_position() {
            Some(s) => if s > at.current { Some(s) } else { None },
            None => None,
        };
        let (merged, tail) = match self.record.record_applied(command, applied) {
            Ok(done) => done,
            Err(err) => return Err(err),
        };
        let ghost after = self.record;
        assert(Record::applied(&old(self).record, &after));
        let ghost dropped = !merged && old(self).spec_current() == old(self).record().spec_limit();
        assert(dropped == (!merged && at.current == after.spec_current()));
        // Check if the limit has been reached.
        if !merged && at.current == self.record.current() {
            let root = self.root;
            self.rm_child(root, 0);
            let len = self.branches.len();
            let mut i: usize = 0;
            let ghost pruned = self.branches@;
            while i < len
                invariant
                    len == self.branches@.len(),
                    0 <= i <= len,
                    self.record == after,
                    self.root == old(self).root,
                    self.saved is Some ==> self.saved == old(self).saved,
                    pruned.len() == len,
                    forall|id: int| 0 <= id < len ==>
                        (#[trigger] self.branches@[id] is Some <==> pruned[id] is Some),
                    forall|id: int| 0 <= id < len && #[trigger] pruned[id] is Some ==> old(self).branches@[id] is Some,
                    forall|id: int| 0 <= id < len && #[trigger] pruned[id] is Some ==> pruned[id] == old(self).branches@[id],
                    forall|id: int| 0 <= id < len && #[trigger] self.branches@[id] is Some
                        ==> self.branches@[id].unwrap().entries == pruned[id].unwrap().entries,
                    forall|id: int| 0 <= id < len && #[trigger] pruned[id] is Some
                        ==> pruned[id].unwrap().parent != At::new_spec(root, 0),
                    forall|id: int| i <= id < len ==> #[trigger] self.branches@[id] == pruned[id],
                    forall|id: int| 0 <= id < i && #[trigger] self.branches@[id] is Some ==> {
                        let p = pruned[id].unwrap().parent;
                        &&& (p.branch == root ==> p.current > 0)
                        &&& self.branches@[id].unwrap().parent
                            == (if p.branch == root { At::new_spec(root, (p.current - 1) as usize) } else { p })
                    },
                decreases len - i,
            {
                match self.branches[i].take() {
                    Some(mut branch) => {
                        if branch.parent.branch == root && branch.parent.current > 0 {
                            branch.parent.current = branch.parent.current - 1;
                        }
                        self.branches.set(i, Some(branch));
                    },
                    None => {},
                }
                i += 1;
            }
        }
        let ghost mid = self.branches@;
        assert(mid.len() == old(self).branches@.len());
        assert(forall|id: int| 0 <= id < mid.len() && #[trigger] mid[id] is Some ==> {
            let p = old(self).branches@[id].unwrap().parent;
            &&& old(self).branches@[id] is Some
            &&& (dropped && p.branch == old(self).root ==> p.current > 0)
            &&& mid[id].unwrap().parent == (if dropped && p.branch == old(self).root {
                At::new_spec(p.branch, (p.current - 1) as usize) } else { p })
        });
        // Handle the new branch.
        if tail.len() > 0 {
            let new = self.branches.len();
            self.branches.push(None);
            self.branches.set(at.branch, Some(Branch::new(new, at.current, tail)));
            self.set_root(new, at.current, saved);
        }
        assert(Record::applied(&old(self).record(), &after) && after.entries() == self.record().entries()
            && after.spec_current() == self.spec_current());
        proof {
            assert forall|id: int| id != old(self).spec_branch() && #[trigger] self.branch_at(id) is Some implies {
                &&& old(self).branch_at(id) is Some
                &&& dropped && old(self).branch_at(id).unwrap().parent.branch == old(self).spec_branch()
                    ==> old(self).branch_at(id).unwrap().parent.current > 0
                &&& self.branch_at(id).unwrap().parent
                    == Self::kept_parent(old(self), self, old(self).branch_at(id).unwrap().parent, dropped)
            } by {
                assert(0 <= id < mid.len());
                assert(mid[id] is Some);
            }
            assert(Self::parents_kept(old(self), self, after, merged));
        }
        Ok(())
    }
}

impl<C: Command, F: FnMut(Signal)> History<C, F> {
    /// Goes back or forward in the current branch to the position before
    /// the first command that was applied no earlier than `to`.
    ///
    /// This method does not jump across branches.
    pub fn time_travel(&mut self, to: &Timestamp) -> (r: Option<Result<C>>)
        requires
            old(self).inv(),
        ensures
            final(self).inv(),
            final(self).same_tree(old(self)),
            old(self).record().spec_len() == 0 ==> {
                &&& r is None
                &&& final(self).record().entries() == old(self).record().entries()
                &&& final(self).spec_current() == old(self).spec_current()
                &&& final(self).record().same_frame(&old(self).record())
                &&& final(self).record().view_target() == old(self).record().view_target()
            },
            old(self).record().spec_len() > 0 ==> {
                &&& r is Some
                &&& final(self).record().same_frame(&old(self).record())
                &&& final(self).record().spec_len() == old(self).record().spec_len()
                &&& chronological(old(self).record().entries()) ==> Record::went_to(&old(self).record(),
                        &final(self).record(), count_before(old(self).record().entries(), *to) as int,
                        r == Some(Result::<C>::Ok(())))
            },
    {
        self.record.time_travel(to)
    }

    /// Takes the branches on the path from the current branch to branch
    /// `to` out of the history, the one growing from the current branch
    /// first. Returns `None`, leaving the history alone, if there is no such
    /// path.
    fn mk_path(&mut self, to: usize) -> (path: Option<Vec<(usize, Branch<C>)>>)
        requires
            old(self).inv(),
        ensures
            final(self).record == old(self).record,
            final(self).root == old(self).root,
            final(self).saved == old(self).saved,
            final(self).branches@.len() == old(self).branches@.len(),
            forall|id: int| 0 <= id < old(self).branches@.len() && #[trigger] final(self).branches@[id] is Some
                ==> final(self).branches@[id] == old(self).branches@[id],
            old(self).branch_at(to as int) is None ==> path is None,
            path is Some <==> (to != old(self).spec_branch() && old(self).chain(to, old(self).next() + 1) is Some),
            path is None ==> final(self).branches == old(self).branches,
            path matches Some(p) ==> {
                let ids = old(self).chain(to, old(self).next() + 1).unwrap();
                &&& p@.len() == ids.len()
                &&& forall|k: int| 0 <= k < p@.len() ==> {
                    &&& #[trigger] p@[k].0 == ids[ids.len() - 1 - k]
                    &&& p@[k].0 < old(self).branches@.len()
                    &&& p@[k].1 == old(self).branch_at(p@[k].0 as int).unwrap()
                }
                &&& forall|id: int| 0 <= id < old(self).branches@.len() ==> #[trigger] final(self).branches@[id]
                    == (if ids.contains(id as usize) { None } else { old(self).branches@[id] })
            },
    {
        let len = self.branches.len();
        if to >= len || self.branches[to].is_none() {
            return None;
        }
        let mut ids: Vec<usize> = Vec::new();
        ids.push(to);
        let mut i = match &self.branches[to] {
            Some(branch) => branch.parent.branch,
            None => return None,
        };
        let ghost whole = self.chain(to, (len + 1) as nat);
        assert(whole == Self::extend_chain(ids@, self.chain(i, len as nat)));
        let mut steps: usize = 0;
        while i != self.root
            invariant
                len == self.branches@.len(),
                self.branches == old(self).branches,
                self.record == old(self).record,
                self.root == old(self).root,
                self.saved == old(self).saved,
                forall|k: int| 0 <= k < ids@.len() ==> #[trigger] ids@[k] < len,
                steps <= len,
                whole == old(self).chain(to, (len + 1) as nat),
                whole == Self::extend_chain(ids@, old(self).chain(i, (len - steps) as nat)),
            decreases len - steps,
        {
            if steps >= len || i >= len {
                return None;
            }
            let next = match &self.branches[i] {
                Some(branch) => branch.parent.branch,
                None => return None,
            };
            let ghost before = ids@;
            ids.push(i);
            proof {
                assert(old(self).chain(i, (len - steps) as nat) == Self::extend_chain(seq![i],
                    old(self).chain(next, (len - steps - 1) as nat)));
                assert(before + seq![i] =~= ids@);
                Self::lemma_extend_chain_assoc(before, seq![i], old(self).chain(next, (len - steps - 1) as nat));
            }
            i = next;
            steps += 1;
        }
        let ghost chain = ids@;
        assert(old(self).chain(i, (len - steps) as nat) == Some(Seq::<usize>::empty()));
        assert(chain + Seq::<usize>::empty() =~= chain);
        proof {
            old(self).lemma_chain_distinct(to, (len + 1) as nat);
            old(self).lemma_chain_present(to, (len + 1) as nat);
        }
        let mut path: Vec<(usize, Branch<C>)> = Vec::new();
        assert(chain.take(chain.len() as int) =~= chain);
        while ids.len() > 0
            invariant
                len == self.branches@.len(),
                len == old(self).branches@.len(),
                self.record == old(self).record,
                self.root == old(self).root,
                self.saved == old(self).saved,
                whole == Some(chain),
                chain.no_duplicates(),
                forall|k: int| 0 <= k < chain.len() ==> #[trigger] old(self).branch_at(chain[k] as int) is Some,
                ids@ == chain.take(ids@.len() as int),
                ids@.len() <= chain.len(),
                path@.len() == chain.len() - ids@.len(),
                forall|k: int| 0 <= k < path@.len() ==> {
                    &&& #[trigger] path@[k].0 == chain[chain.len() - 1 - k]
                    &&& path@[k].0 < len
                    &&& path@[k].1 == old(self).branch_at(path@[k].0 as int).unwrap()
                },
                forall|id: int| 0 <= id < len ==> #[trigger] self.branches@[id]
                    == (if chain.skip(ids@.len() as int).contains(id as usize) { None } else { old(self).branches@[id] }),
            decreases ids.len(),
        {
            let ghost n = ids@.len() as int;
            let id = ids.pop().unwrap();
            proof {
                assert(id == chain[n - 1]);
                assert(old(self).branch_at(id as int) is Some);
                assert(!chain.skip(n).contains(id)) by {
                    if chain.skip(n).contains(id) {
                        let j = choose|j: int| 0 <= j < chain.skip(n).len() && #[trigger] chain.skip(n)[j] == id;
                        assert(chain[n + j] == chain[n - 1]);
                    }
                }
                assert(ids@ =~= chain.take(n - 1));
            }
            match self.branches[id].take() {
                Some(branch) => path.push((id, branch)),
                None => {},
            }
            proof {
                assert forall|id2: int| 0 <= id2 < len implies #[trigger] self.branches@[id2]
                    == (if chain.skip(n - 1).contains(id2 as usize) { None } else { old(self).branches@[id2] }) by {
                    if chain.skip(n - 1).contains(id2 as usize) && id2 != id as int {
                        let j = choose|j: int| 0 <= j < chain.skip(n - 1).len() && #[trigger] chain.skip(n - 1)[j] == id2 as usize;
                        assert(j > 0);
                        assert(chain.skip(n)[j - 1] == id2 as usize);
                    }
                    if chain.skip(n).contains(id2 as usize) {
                        let j = choose|j: int| 0 <= j < chain.skip(n).len() && #[trigger] chain.skip(n)[j] == id2 as usize;
                        assert(chain.skip(n - 1)[j + 1] == id2 as usize);
                    }
                    if id2 == id as int {
                        assert(chain.skip(n - 1)[0] == id);
                    }
                }
            }
        }
        assert(chain.skip(0) =~= chain);
        Some(path)
    }

    /// Repeatedly calls `undo` or `redo` until the command in `branch` at
    /// `current` is reached.
    ///
    /// Returns `None` if there is no such branch, or if the way to it cannot
    /// be followed.
    ///
    /// # Errors
    /// If an error occurs when executing `undo` or `redo` the error is returned.
    pub fn go_to(&mut self, branch: usize, current: usize) -> (r: Option<Result<C>>)
        requires
            old(self).inv(),
        ensures
            final(self).inv(),
            branch == old(self).spec_branch() && current > old(self).record().spec_len() ==> {
                &&& r is None
                &&& final(self).record().entries() == old(self).record().entries()
                &&& final(self).spec_current() == old(self).spec_current()
                &&& final(self).record().same_frame(&old(self).record())
                &&& final(self).record().view_target() == old(self).record().view_target()
                &&& final(self).same_tree(old(self))
            },
            branch == old(self).spec_branch() && current <= old(self).record().spec_len() ==> {
                &&& r is Some
                &&& Record::went_to(&old(self).record(), &final(self).record(), current as int,
                        r == Some(Result::<C>::Ok(())))
                &&& final(self).same_tree(old(self))
            },
            branch != old(self).spec_branch() && old(self).branch_at(branch as int) is None ==> {
                &&& r is None
                &&& final(self).record() == old(self).record()
                &&& final(self).same_tree(old(self))
            },
            r == Some(Result::<C>::Ok(())) ==> final(self).spec_current() == current,
            old(self).grows_here(branch) && r == Some(Result::<C>::Ok(())) ==> final(self).spec_branch() == branch,
            old(self).grows_here(branch) && r is None ==> current > final(self).record().spec_len(),
            branch == old(self).spec_branch() && r == Some(Result::<C>::Ok(())) ==> final(self).record().signals()
                == old(self).record().told(Record::moved(&old(self).record(), &final(self).record())),
            branch == old(self).spec_branch() && r != Some(Result::<C>::Ok(())) ==>
                final(self).record().signals() == old(self).record().signals()
                && final(self).record().view_slot() == old(self).record().view_slot(),
            branch != old(self).spec_branch() && old(self).chain(branch, old(self).next() + 1) is None
                ==> r is None && *final(self) == *old(self),
            final(self).next() == old(self).next(),
            final(self).record().spec_limit() == old(self).record().spec_limit(),
            final(self).record().connected() == old(self).record().connected(),
    {
        let root = self.root;
        if root == branch {
            return self.record.go_to(current);
        }
        let ghost one = old(self).grows_here(branch);
        proof {
            if one {
                let b = old(self).branch_at(branch as int).unwrap();
                assert(old(self).chain(b.parent.branch, old(self).next()) == Some(Seq::<usize>::empty()));
                assert(seq![branch] + Seq::<usize>::empty() =~= seq![branch]);
                assert(old(self).chain(branch, old(self).next() + 1) == Some(seq![branch]));
            }
        }
        let path = match self.mk_path(branch) {
            Some(path) => path,
            None => return None,
        };
        let len = self.branches.len();
        let ghost target = branch;
        // Walk the path from the current branch to `branch`.
        let ghost taken = path@;
        let mut path = reversed(path);
        proof {
            if one {
                assert(taken.len() == 1);
                assert(path@[0] == taken[0]);
                assert(seq![branch][0] == branch);
                assert(seq![branch].contains(branch));
                assert(self.branches@[branch as int] is None);
                assert(path@.len() == 1);
                assert(path@[0].0 == branch);
                assert(path@[0].1 == old(self).branch_at(branch as int).unwrap());
                assert(self.record() == old(self).record());
                assert(self.root == old(self).root);
            }
        }
        while path.len() > 0
            invariant
                old(self).chain(branch, old(self).next() + 1) is Some,
                one == old(self).grows_here(branch),
                one ==> (path@.len() == 1 && path@[0].0 == branch
                    && path@[0].1 == old(self).branch_at(branch as int).unwrap()
                    && self.record() == old(self).record() && self.root == old(self).root
                    && self.branches@[branch as int] is None)
                    || (path@.len() == 0 && self.root == branch),
                self.inv(),
                target == branch,
                target != old(self).spec_branch(),
                old(self).branch_at(target as int) is Some,
                len == self.branches@.len(),
                len == old(self).branches@.len(),
                self.record().spec_limit() == old(self).record().spec_limit(),
                self.record().connected() == old(self).record().connected(),
                forall|k: int| 0 <= k < path@.len() ==> #[trigger] path@[k].0 < len,
            decreases path.len(),
        {
            let (new, step) = path.pop().unwrap();
            // Walk to where the branch grows from, undoing or redoing.
            let ghost before_walk = self.record();
            let moved = self.record.go_to(step.parent.current);
            match moved {
                Some(Ok(unit)) => {
                    assert(moved == Some(Result::<C>::Ok(unit)));
                },
                Some(Err(err)) => return Some(Err(err)),
                None => return None,
            }
            assert(Record::went_to(&before_walk, &self.record(), step.parent.current as int, true)
                || step.parent.current > before_walk.spec_len());
            // Apply the commands of the branch, and keep the commands they
            // replace in a branch of their own.
            let mut entries = reversed(step.entries);
            let ghost mut first = true;
            while entries.len() > 0
                invariant
                    old(self).chain(branch, old(self).next() + 1) is Some,
                    one == old(self).grows_here(branch),
                    one ==> new == branch && path@.len() == 0,
                    one && first ==> self.record().spec_current() < self.record().spec_len()
                        && self.root == old(self).root && self.branches@[new as int] is None
                        && entries@.len() > 0,
                    one && !first ==> self.root == new,
                    self.inv(),
                    target == branch,
                    target != old(self).spec_branch(),
                    old(self).branch_at(target as int) is Some,
                    len == self.branches@.len(),
                    len == old(self).branches@.len(),
                    self.record().spec_limit() == old(self).record().spec_limit(),
                    self.record().connected() == old(self).record().connected(),
                    new < len,
                decreases entries.len(),
            {
                let entry = entries.pop().unwrap();
                let current = self.record.current();
                let saved = match self.record.saved_position() {
                    Some(s) => if s > current { Some(s) } else { None },
                    None => None,
                };
                let tail = match self.record.apply_entry(entry.command) {
                    Ok((_, tail)) => tail,
                    Err(err) => return Some(Err(err)),
                };
                if tail.len() > 0 && self.root != new && self.branches[new].is_none() {
                    let root = self.root;
                    self.branches.set(root, Some(Branch::new(new, current, tail)));
                    self.set_root(new, current, saved);
                }
                proof {
                    first = false;
                }
            }
        }
        self.record.go_to(current)
    }
}

impl<C: Command, F: FnMut(Signal)> History<C, F> {
    /// Makes branch `root`, which grows from the current position, the
    /// current branch: its commands take the place of those after the current
    /// position, which are kept as a branch under the number of the branch
    /// that was current. Returns whether it did; it does not when there is
    /// no such branch, it does not grow from the current position, or its
    /// commands do not fit within the limit.
    pub(crate) fn jump_to(&mut self, root: usize) -> (jumped: bool)
        requires
            old(self).inv(),
        ensures
            Self::jump_step(old(self), root, final(self)),
            jumped == old(self).can_jump(root),
    {
        let len = self.branches.len();
        if root >= len || root == self.root {
            return false;
        }
        let current = self.record.current();
        let fits = match &self.branches[root] {
            Some(branch) => branch.parent.branch == self.root && branch.parent.current == current
                && branch.entries.len() <= self.record.limit() - current,
            None => false,
        };
        if !fits {
            return false;
        }
        let mut branch = self.branches[root].take().unwrap();
        let saved = match self.record.saved_position() {
            Some(s) => if s > current { Some(s) } else { None },
            None => None,
        };
        let tail = self.record.split_tail();
        let jumped = self.record.extend_entries(&mut branch.entries);
        assert(jumped);
        let old_root = self.root;
        self.branches.set(old_root, Some(Branch::new(root, current, tail)));
        self.set_root(root, current, saved);
        true
    }
}

impl<C: Command, F> History<C, F> {
    /// Consumes the history, returning the record of its current branch.
    pub fn into_record(self) -> (record: Record<C, F>)
        ensures
            record == self.record(),
    {
        self.record
    }

    /// `new` is `old` after `apply`, which succeeded if `ok` holds.
    pub open spec fn apply_step(old: &Self, new: &Self, ok: bool) -> bool {
        &&& new.inv()
        &&& new.record().spec_limit() == old.record().spec_limit()
        &&& new.record().connected() == old.record().connected()
        &&& ok ==> Self::applied(old, new)
        &&& !ok ==> {
            &&& new.record().entries() == old.record().entries()
            &&& new.spec_current() == old.spec_current()
            &&& new.record().saved_at() == old.record().saved_at()
            &&& new.same_tree(old)
        }
    }

    /// `new` is `old` after `undo`, which succeeded if `ok` holds.
    pub open spec fn undo_step(old: &Self, new: &Self, ok: bool) -> bool {
        &&& new.inv()
        &&& Record::undo_step(&old.record(), &new.record(), ok)
        &&& new.same_tree(old)
    }

    /// `new` is `old` after `redo`, which succeeded if `ok` holds.
    pub open spec fn redo_step(old: &Self, new: &Self, ok: bool) -> bool {
        &&& new.inv()
        &&& Record::redo_step(&old.record(), &new.record(), ok)
        &&& new.same_tree(old)
    }

    /// `new` is `old` after `go_to(branch, current)`, which did not fail if
    /// `ok` holds: within the current branch as for a record; to a branch
    /// that is not there, nothing changes; when it reports success, the
    /// history stands at position `current`.
    pub open spec fn go_to_step(old: &Self, branch: usize, current: usize, new: &Self, ok: bool) -> bool {
        &&& new.inv()
        &&& new.next() == old.next()
        &&& new.record().spec_limit() == old.record().spec_limit()
        &&& new.record().connected() == old.record().connected()
        &&& branch == old.spec_branch() ==> {
            &&& Record::go_to_step(&old.record(), current, &new.record(), ok)
            &&& new.same_tree(old)
        }
        &&& branch != old.spec_branch() && old.branch_at(branch as int) is None ==> {
            &&& ok
            &&& new.record().entries() == old.record().entries()
            &&& new.spec_current() == old.spec_current()
            &&& new.record().same_frame(&old.record())
            &&& new.record().view_target() == old.record().view_target()
            &&& new.same_tree(old)
        }
    }

    /// `new` is `old` after `action` was carried out, successfully if `ok`.
    pub open spec fn action_step(old: &Self, action: QueueCommand<C>, new: &Self, ok: bool) -> bool {
        match action {
            QueueCommand::Apply(_) => Self::apply_step(old, new, ok),
            QueueCommand::Undo => Self::undo_step(old, new, ok),
            QueueCommand::Redo => Self::redo_step(old, new, ok),
            QueueCommand::GoTo(branch, current) => Self::go_to_step(old, branch, current, new, ok),
        }
    }

    /// `new` is `old` after all of `actions` were carried out in order,
    /// each successfully.
    pub open spec fn runs(old: &Self, actions: Seq<QueueCommand<C>>, new: &Self) -> bool
        decreases actions.len(),
    {
        if actions.len() == 0 {
            *new == *old
        } else {
            exists|mid: Self| #[trigger] Self::action_step(old, actions[0], &mid, true)
                && Self::runs(&mid, actions.skip(1), new)
        }
    }

    /// `new` is `old` after the first actions of `actions` were carried out
    /// in order and the next one failed.
    pub open spec fn fails(old: &Self, actions: Seq<QueueCommand<C>>, new: &Self) -> bool {
        exists|k: int, mid: Self| 0 <= k < actions.len()
            && #[trigger] Self::runs(old, actions.take(k), &mid)
            && Self::action_step(&mid, actions[k], new, false)
    }

    /// Carrying out one more action extends a run.
    pub proof fn lemma_runs_push(a: &Self, actions: Seq<QueueCommand<C>>, m: &Self, x: QueueCommand<C>, b: &Self)
        requires
            Self::runs(a, actions, m),
            Self::action_step(m, x, b, true),
        ensures
            Self::runs(a, actions.push(x), b),
        decreases actions.len(),
    {
        if actions.len() == 0 {
            assert(actions.push(x).skip(1) =~= Seq::<QueueCommand<C>>::empty());
            assert(Self::runs(b, actions.push(x).skip(1), b));
            assert(actions.push(x)[0] == x);
        } else {
            let mid = choose|mid: Self| #[trigger] Self::action_step(a, actions[0], &mid, true)
                && Self::runs(&mid, actions.skip(1), m);
            Self::lemma_runs_push(&mid, actions.skip(1), m, x, b);
            assert(actions.push(x).skip(1) =~= actions.skip(1).push(x));
            assert(actions.push(x)[0] == actions[0]);
        }
    }
}

impl<C: Command, F> History<C, F> {
    /// The numbers of the branches on the way from branch `id` down to the
    /// current branch, `id` first, following parents through at most `fuel`
    /// branches; `None` where the way leaves the branches or is longer.
    pub open spec fn chain(&self, id: usize, fuel: nat) -> Option<Seq<usize>>
        decreases fuel,
    {
        if id == self.spec_branch() {
            Some(Seq::empty())
        } else if fuel == 0 {
            None
        } else {
            match self.branch_at(id as int) {
                Some(b) => Self::extend_chain(seq![id], self.chain(b.parent.branch, (fuel - 1) as nat)),
                None => None,
            }
        }
    }

    /// `rest` after `first`, where there is a rest.
    pub open spec fn extend_chain(first: Seq<usize>, rest: Option<Seq<usize>>) -> Option<Seq<usize>> {
        match rest {
            Some(s) => Some(first + s),
            None => None,
        }
    }

    /// Extending a chain twice is extending it by both at once.
    pub proof fn lemma_extend_chain_assoc(a: Seq<usize>, b: Seq<usize>, rest: Option<Seq<usize>>)
        ensures
            Self::extend_chain(a, Self::extend_chain(b, rest)) == Self::extend_chain(a + b, rest),
    {
        if let Some(s) = rest {
            assert(a + (b + s) =~= (a + b) + s);
        }
    }

    /// A way to the current branch does not depend on the fuel it was found with.
    pub proof fn lemma_chain_fuel(&self, id: usize, f1: nat, f2: nat)
        requires
            self.chain(id, f1) is Some,
            self.chain(id, f2) is Some,
        ensures
            self.chain(id, f1) == self.chain(id, f2),
        decreases f1,
    {
        if id != self.spec_branch() {
            let b = self.branch_at(id as int).unwrap();
            self.lemma_chain_fuel(b.parent.branch, (f1 - 1) as nat, (f2 - 1) as nat);
        }
    }

    /// Each suffix of a way to the current branch is the way from its first branch.
    pub proof fn lemma_chain_suffix(&self, id: usize, fuel: nat, p: int)
        requires
            self.chain(id, fuel) is Some,
            0 <= p < self.chain(id, fuel).unwrap().len(),
        ensures
            fuel >= p,
            self.chain(self.chain(id, fuel).unwrap()[p], (fuel - p) as nat)
                == Some(self.chain(id, fuel).unwrap().skip(p)),
        decreases fuel,
    {
        let s = self.chain(id, fuel).unwrap();
        let b = self.branch_at(id as int).unwrap();
        let rest = self.chain(b.parent.branch, (fuel - 1) as nat);
        assert(s == seq![id] + rest.unwrap());
        if p == 0 {
            assert(s.skip(0) =~= s);
        } else {
            self.lemma_chain_suffix(b.parent.branch, (fuel - 1) as nat, p - 1);
            assert(rest.unwrap().skip(p - 1) =~= s.skip(p));
        }
    }

    /// A way to the current branch passes no branch twice.
    pub proof fn lemma_chain_distinct(&self, id: usize, fuel: nat)
        requires
            self.chain(id, fuel) is Some,
        ensures
            self.chain(id, fuel).unwrap().no_duplicates(),
    {
        let s = self.chain(id, fuel).unwrap();
        assert forall|p: int, q: int| 0 <= p < s.len() && 0 <= q < s.len() && p != q implies s[p] != s[q] by {
            if s[p] == s[q] {
                self.lemma_chain_suffix(id, fuel, p);
                self.lemma_chain_suffix(id, fuel, q);
                self.lemma_chain_fuel(s[p], (fuel - p) as nat, (fuel - q) as nat);
                assert(s.skip(p).len() != s.skip(q).len());
            }
        }
    }

    /// Every branch on a way to the current branch is present.
    pub proof fn lemma_chain_present(&self, id: usize, fuel: nat)
        requires
            self.chain(id, fuel) is Some,
        ensures
            forall|k: int| 0 <= k < self.chain(id, fuel).unwrap().len()
                ==> #[trigger] self.branch_at(self.chain(id, fuel).unwrap()[k] as int) is Some,
    {
        let s = self.chain(id, fuel).unwrap();
        assert forall|k: int| 0 <= k < s.len() implies #[trigger] self.branch_at(s[k] as int) is Some by {
            self.lemma_chain_suffix(id, fuel, k);
            assert(s.skip(k).len() > 0);
        }
    }

    /// Branch `branch` grows from the current branch before its end, and
    /// holds commands.
    pub open spec fn grows_here(&self, branch: usize) -> bool {
        &&& branch != self.spec_branch()
        &&& self.branch_at(branch as int) is Some
        &&& self.branch_at(branch as int).unwrap().parent.branch == self.spec_branch()
        &&& self.branch_at(branch as int).unwrap().parent.current < self.record().spec_len()
        &&& self.branch_at(branch as int).unwrap().entries@.len() > 0
    }

    /// Branch `root` grows from the current position, and its commands fit
    /// within the limit in place of those after it.
    pub open spec fn can_jump(&self, root: usize) -> bool {
        &&& root != self.spec_branch()
        &&& self.branch_at(root as int) is Some
        &&& self.branch_at(root as int).unwrap().parent == At::new_spec(self.spec_branch(), self.spec_current())
        &&& self.spec_current() + self.branch_at(root as int).unwrap().entries@.len() <= self.record().spec_limit()
    }

    /// `new` is `old` after a jump to branch `root`: where it can jump, the
    /// commands of `root` take the place of those after the current position,
    /// which become a branch under the number of the old current branch, and
    /// `root` becomes current; otherwise nothing changes.
    pub open spec fn jump_step(old: &Self, root: usize, new: &Self) -> bool {
        let cur = old.spec_current() as int;
        let branch = old.branch_at(root as int).unwrap();
        &&& new.inv()
        &&& !old.can_jump(root) ==> {
            &&& new.record() == old.record()
            &&& new.same_tree(old)
        }
        &&& old.can_jump(root) ==> {
            &&& new.spec_branch() == root
            &&& new.next() == old.next()
            &&& new.record().entries() == old.record().entries().take(cur) + branch.entries@
            &&& new.spec_current() == cur
            &&& new.record().spec_limit() == old.record().spec_limit()
            &&& new.record().connected() == old.record().connected()
            &&& new.branch_at(old.spec_branch() as int) matches Some(b)
            &&& b.parent == At::new_spec(root, cur as usize)
            &&& b.entries@ == old.record().entries().skip(cur)
        }
    }
}

/// Wraps a history and gives it batch queue functionality.
pub struct Queue<'a, C: Command, F> {
    /// The history the actions are for.
    pub history: &'a mut History<C, F>,
    /// The queued actions, first first.
    pub commands: Vec<QueueCommand<C>>,
}

impl<'a, C: Command, F: FnMut(Signal)> Queue<'a, C, F> {
    /// Returns a queue on `history`.
    pub fn new(history: &'a mut History<C, F>) -> (q: Queue<'a, C, F>)
        ensures
            *q.history == *old(history),
            *final(q.history) == *final(history),
            q.commands@ == Seq::<QueueCommand<C>>::empty(),
    {
        Queue { history, commands: Vec::new() }
    }

    /// Queues an `apply` action.
    pub fn apply(&mut self, command: C)
        ensures
            *final(self).history == *old(self).history,
            final(self).commands@ == old(self).commands@.push(QueueCommand::Apply(command)),
    {
        self.commands.push(QueueCommand::Apply(command));
    }

    /// Queues an `undo` action.
    pub fn undo(&mut self)
        ensures
            *final(self).history == *old(self).history,
            final(self).commands@ == old(self).commands@.push(QueueCommand::Undo),
    {
        self.commands.push(QueueCommand::Undo);
    }

    /// Queues a `redo` action.
    pub fn redo(&mut self)
        ensures
            *final(self).history == *old(self).history,
            final(self).commands@ == old(self).commands@.push(QueueCommand::Redo),
    {
        self.commands.push(QueueCommand::Redo);
    }

    /// Queues a `go_to` action.
    pub fn go_to(&mut self, branch: usize, current: usize)
        ensures
            *final(self).history == *old(self).history,
            final(self).commands@ == old(self).commands@.push(QueueCommand::GoTo(branch, current)),
    {
        self.commands.push(QueueCommand::GoTo(branch, current));
    }

    /// Reserves capacity for at least `additional` more actions in the queue.
    pub fn reserve(&mut self, additional: usize)
        ensures
            *final(self).history == *old(self).history,
            final(self).commands@ == old(self).commands@,
    {
        self.commands.reserve(additional);
    }

    /// Returns the capacity of the queue.
    pub fn capacity(&self) -> (c: usize)
        ensures
            c >= self.commands@.len(),
    {
        vec_capacity(&self.commands)
    }

    /// Shrinks the capacity of the queue as much as possible.
    pub fn shrink_to_fit(&mut self)
        ensures
            *final(self).history == *old(self).history,
            final(self).commands@ == old(self).commands@,
    {
        vec_shrink_to_fit(&mut self.commands);
    }

    /// Returns the number of actions in the queue.
    pub fn len(&self) -> (n: usize)
        ensures
            n == self.commands@.len(),
    {
        self.commands.len()
    }

    /// Returns `true` if the queue is empty.
    pub fn is_empty(&self) -> (b: bool)
        ensures
            b == (self.commands@.len() == 0),
    {
        self.commands.len() == 0
    }

    /// Queues an `apply` action for each of `commands`, in order.
    pub fn extend(&mut self, commands: Vec<C>)
        ensures
            *final(self).history == *old(self).history,
            final(self).commands@ == old(self).commands@ + applies(commands@),
    {
        let ghost all = commands@;
        let mut commands = reversed(commands);
        let ghost mut done: int = 0;
        assert(applies(all.take(0)) =~= Seq::<QueueCommand<C>>::empty());
        assert(self.commands@ =~= old(self).commands@ + applies(all.take(0)));
        while commands.len() > 0
            invariant
                *self.history == *old(self).history,
                commands@.reverse() =~= all.skip(done),
                commands@.len() + done == all.len(),
                0 <= done <= all.len(),
                self.commands@ == old(self).commands@ + applies(all.take(done)),
            decreases commands.len(),
        {
            let ghost rest = commands@;
            let command = commands.pop().unwrap();
            proof {
                assert(rest.reverse()[0] == rest[rest.len() - 1]);
                assert(all.skip(done)[0] == all[done]);
                assert(all.take(done + 1) =~= all.take(done).push(command));
                assert(applies(all.take(done + 1)) =~= applies(all.take(done)).push(QueueCommand::Apply(command)));
                assert(rest.reverse().skip(1) =~= commands@.reverse());
            }
            self.commands.push(QueueCommand::Apply(command));
            proof {
                done = done + 1;
            }
        }
        assert(all.take(done) =~= all);
    }

    /// Applies the queued actions in order.
    ///
    /// # Errors
    /// If an error occurs, it stops applying the actions and returns the error.
    pub fn commit(self) -> (r: Result<C>)
        requires
            old(self.history).inv(),
        ensures
            final(self.history).inv(),
            r is Ok ==> History::runs(&*old(self.history), self.commands@, &*final(self.history)),
            r is Err ==> History::fails(&*old(self.history), self.commands@, &*final(self.history)),
    {
        let Queue { history, commands } = self;
        let ghost start = *history;
        let ghost all = commands@;
        let mut pending = reversed(commands);
        let ghost mut done: int = 0;
        assert(History::runs(&start, all.take(0), &*history)) by {
            assert(all.take(0) =~= Seq::<QueueCommand<C>>::empty());
        }
        assert(pending@.reverse() =~= all.skip(0)) by {
            assert(pending@.reverse() =~= all.reverse().reverse());
        }
        let mut outcome: Result<C> = Ok(());
        assert(all.take(all.len() as int) =~= all);
        while pending.len() > 0
            invariant_except_break
                pending@.reverse() =~= all.skip(done),
                pending@.len() + done == all.len(),
                all.take(all.len() as int) == all,
                History::runs(&start, all.take(done), &*history),
                outcome is Ok,
            invariant
                history.inv(),
                0 <= done <= all.len(),
            ensures
                history.inv(),
                outcome is Ok ==> History::runs(&start, all, &*history),
                outcome is Err ==> History::fails(&start, all, &*history),
            decreases pending.len(),
        {
            let ghost before = *history;
            let ghost rest = pending@;
            let action = pending.pop().unwrap();
            assert(all.skip(done).len() == rest.len());
            assert(action == rest[rest.len() - 1]);
            assert(rest.reverse()[0] == rest[rest.len() - 1]);
            assert(all.skip(done)[0] == all[done]);
            let ghost kind = action;
            let result = match action {
                QueueCommand::Apply(command) => history.apply(command),
                QueueCommand::Undo => history.undo(),
                QueueCommand::Redo => history.redo(),
                QueueCommand::GoTo(branch, current) => {
                    let r = history.go_to(branch, current);
                    match r {
                        Some(Err(err)) => {
                            assert(History::go_to_step(&before, branch, current, &*history, false));
                            Err(err)
                        },
                        Some(Ok(unit)) => {
                            assert(r == Some(Result::<C>::Ok(unit)));
                            assert(History::go_to_step(&before, branch, current, &*history, true));
                            Ok(())
                        },
                        None => {
                            assert(History::go_to_step(&before, branch, current, &*history, true));
                            Ok(())
                        },
                    }
                },
            };
            match result {
                Ok(()) => {
                    proof {
                        History::lemma_runs_push(&start, all.take(done), &before, kind, &*history);
                        assert(all.take(done).push(kind) =~= all.take(done + 1));
                        assert(rest.reverse().skip(1) =~= pending@.reverse());
                        done = done + 1;
                    }
                },
                Err(err) => {
                    assert(History::action_step(&before, all[done], &*history, false));
                    assert(History::fails(&start, all, &*history));
                    outcome = Err(err);
                    break;
                },
            }
            proof {
                if pending.len() == 0 {
                    assert(all.take(done) =~= all);
                }
            }
        }
        outcome
    }

    /// Cancels the queued actions.
    pub fn cancel(self)
        ensures
            *final(self.history) == *old(self.history),
    {
    }

    /// Returns a queue on the same history.
    pub fn queue(&mut self) -> (q: Queue<'_, C, F>)
        ensures
            *q.history == *old(self).history,
            *final(q.history) == *final(self).history,
            q.commands@ == Seq::<QueueCommand<C>>::empty(),
            final(self).commands@ == old(self).commands@,
    {
        self.history.queue()
    }

    /// Returns a checkpoint on the same history.
    pub fn checkpoint(&mut self) -> (c: Checkpoint<'_, C, F>)
        ensures
            *c.history == *old(self).history,
            *final(c.history) == *final(self).history,
            c.commands@ == Seq::<CheckpointCommand>::empty(),
            final(self).commands@ == old(self).commands@,
    {
        self.history.checkpoint()
    }

    /// Returns a reference to the target.
    pub fn target(&self) -> (t: &C::Target)
        ensures
            *t == old(self.history).record().view_target(),
    {
        self.history.target()
    }

    /// Returns a mutable reference to the target.
    ///
    /// This method should **only** be used when doing changes that should not be able to be undone.
    pub fn target_mut(&mut self) -> (t: &mut C::Target)
        requires
            old(self).history.inv(),
        ensures
            *t == old(self).history.record().view_target(),
            final(self).history.record().view_target() == *final(t),
            final(self).history.inv(),
            final(self).history.record().entries() == old(self).history.record().entries(),
            final(self).history.spec_current() == old(self).history.spec_current(),
            final(self).history.record().same_frame(&old(self).history.record()),
            final(self).history.same_tree(old(self).history),
            final(self).commands@ == old(self).commands@,
    {
        self.history.target_mut()
    }
}

/// An action carried out through a history checkpoint.
#[derive(Clone, Copy, Debug, PartialEq, Eq, Structural)]
pub enum CheckpointCommand {
    /// A command was applied at this position.
    Apply(At),
    /// Undone once.
    Undo,
    /// Redone once.
    Redo,
    /// Moved with `go_to` from this position.
    GoTo(At),
}

impl<C: Command, F> History<C, F> {
    /// `new` is `mid` after the command applied through a checkpoint was
    /// dropped, `root` being the branch that was current before the
    /// checkpoint went back to `at`: when `at` lies in that branch, its last
    /// command is dropped if it is not applied; otherwise branch `root`, which
    /// now holds the command, is removed.
    pub open spec fn dropped(mid: &Self, root: usize, at: At, new: &Self) -> bool {
        &&& new.inv()
        &&& root == at.branch ==> {
            &&& new.record().entries() == (if mid.spec_current() < mid.record().spec_len() {
                mid.record().entries().drop_last()
            } else {
                mid.record().entries()
            })
            &&& new.spec_current() == mid.spec_current()
            &&& new.record().same_frame(&mid.record())
            &&& new.record().view_target() == mid.record().view_target()
            &&& new.same_tree(mid)
        }
        &&& root != at.branch ==> {
            &&& new.record() == mid.record()
            &&& new.spec_branch() == mid.spec_branch()
            &&& new.next() == mid.next()
            &&& new.saved_elsewhere() == mid.saved_elsewhere()
            &&& forall|id: int| #[trigger] new.branch_at(id)
                == (if id == root && root != mid.spec_branch() { None } else { mid.branch_at(id) })
        }
    }

    /// `new` is `old` after the checkpointed `action` was cancelled,
    /// successfully if `ok`.
    pub open spec fn cancel_step(old: &Self, action: CheckpointCommand, new: &Self, ok: bool) -> bool {
        match action {
            CheckpointCommand::Apply(at) => exists|mid: Self|
                #[trigger] Self::go_to_step(old, at.branch, at.current, &mid, ok)
                && (ok ==> Self::dropped(&mid, old.spec_branch(), at, new))
                && (!ok ==> *new == mid),
            CheckpointCommand::Undo => Self::redo_step(old, new, ok),
            CheckpointCommand::Redo => Self::undo_step(old, new, ok),
            CheckpointCommand::GoTo(at) => Self::go_to_step(old, at.branch, at.current, new, ok),
        }
    }

    /// `new` is `old` after all of `actions` were cancelled, the last first,
    /// each successfully.
    pub open spec fn cancels(old: &Self, actions: Seq<CheckpointCommand>, new: &Self) -> bool
        decreases actions.len(),
    {
        if actions.len() == 0 {
            *new == *old
        } else {
            exists|mid: Self| #[trigger] Self::cancel_step(old, actions.last(), &mid, true)
                && Self::cancels(&mid, actions.drop_last(), new)
        }
    }

    /// `new` is `old` after the last actions of `actions` were cancelled and
    /// cancelling the one before them failed.
    pub open spec fn cancel_fails(old: &Self, actions: Seq<CheckpointCommand>, new: &Self) -> bool {
        exists|k: int, mid: Self| 0 <= k < actions.len()
            && #[trigger] Self::cancels(old, actions.skip(k + 1), &mid)
            && Self::cancel_step(&mid, actions[k], new, false)
    }

    /// Cancelling one more, earlier, action extends a cancellation.
    pub proof fn lemma_cancels_prepend(a: &Self, actions: Seq<CheckpointCommand>, m: &Self, x: CheckpointCommand, b: &Self)
        requires
            Self::cancels(a, actions, m),
            Self::cancel_step(m, x, b, true),
        ensures
            Self::cancels(a, seq![x] + actions, b),
        decreases actions.len(),
    {
        let all = seq![x] + actions;
        if actions.len() == 0 {
            assert(all.drop_last() =~= Seq::<CheckpointCommand>::empty());
            assert(Self::cancels(b, all.drop_last(), b));
            assert(all.last() == x);
        } else {
            let mid = choose|mid: Self| #[trigger] Self::cancel_step(a, actions.last(), &mid, true)
                && Self::cancels(&mid, actions.drop_last(), m);
            Self::lemma_cancels_prepend(&mid, actions.drop_last(), m, x, b);
            assert(all.drop_last() =~= seq![x] + actions.drop_last());
            assert(all.last() == actions.last());
        }
    }
}

impl<C: Command, F> History<C, F> {
    /// Undoing a command and then redoing it brings the history back to the
    /// branch and position it was at, with the same saved state.
    pub proof fn law_undo_then_redo(a: &Self, b: &Self, c: &Self)
        requires
            a.inv(),
            a.record().spec_can_undo(),
            Self::undo_step(a, b, true),
            Self::redo_step(b, c, true),
        ensures
            c.spec_branch() == a.spec_branch(),
            c.spec_current() == a.spec_current(),
            c.record().spec_len() == a.record().spec_len(),
            c.record().saved_at() == a.record().saved_at(),
            c.same_tree(a),
    {
        Record::law_undo_then_redo(&a.record(), &b.record(), &c.record());
    }

    /// Applying a command where commands could still be redone keeps them as
    /// a branch that grows from the new current branch, so that going to it
    /// lands on it (see `go_to`), when the command was pushed rather than
    /// merged or annulled (the record grew by one past the old position).
    pub proof fn law_apply_keeps_the_way_back(a: &Self, b: &Self)
        requires
            a.inv(),
            a.spec_current() < a.record().spec_len(),
            Self::apply_step(a, b, true),
            b.record().spec_len() == a.spec_current() + 1,
        ensures
            b.grows_here(a.spec_branch()),
            b.branch_at(a.spec_branch() as int).unwrap().entries@ == a.record().entries().skip(a.spec_current() as int),
    {
        let k = a.spec_current() as int;
        let r = choose|r: Record<C, F>| #[trigger] Record::applied(&a.record(), &r) && r.inv()
            && r.entries() == b.record().entries() && r.spec_current() == b.spec_current();
        assert(Record::applied_pushed(&a.record(), &r));
        assert(a.record().entries().take(k).len() == k);
        assert(b.record().spec_len() == k + 1);
    }

    /// Applying a command at the limit, where no merge is offered, drops the
    /// oldest command of the current branch: every branch that is kept and
    /// grew from the current branch now grows from one position earlier
    /// (none grew from its very start), every other branch keeps its parent
    /// and its commands, and the current branch stays current.
    pub proof fn law_apply_at_the_limit_moves_branches_down(a: &Self, b: &Self)
        requires
            a.inv(),
            a.spec_current() == a.record().spec_limit(),
            !a.record().may_merge(),
            Self::apply_step(a, b, true),
        ensures
            b.spec_branch() == a.spec_branch(),
            forall|id: int| #[trigger] b.branch_at(id) is Some ==> {
                let p = a.branch_at(id).unwrap().parent;
                &&& a.branch_at(id) is Some
                &&& b.branch_at(id).unwrap().entries == a.branch_at(id).unwrap().entries
                &&& p.branch == a.spec_branch() ==> p.current > 0
                    && b.branch_at(id).unwrap().parent == At::new_spec(p.branch, (p.current - 1) as usize)
                &&& p.branch != a.spec_branch() ==> b.branch_at(id).unwrap().parent == p
            },
    {
        let (r, merged) = choose|r: Record<C, F>, merged: bool| #[trigger] Self::parents_kept(a, b, r, merged);
        assert(!merged);
        assert forall|id: int| #[trigger] b.branch_at(id) is Some implies a.branch_at(id) is Some by {
            if id == a.spec_branch() {
                assert(b.spec_branch() == a.spec_branch());
            }
        }
    }

    /// Applying a command at the end of the current branch, below the limit,
    /// leaves every branch as it was: the same parent and the same commands.
    pub proof fn law_apply_at_the_end_keeps_branches(a: &Self, b: &Self)
        requires
            a.inv(),
            a.spec_current() == a.record().spec_len(),
            a.spec_current() < a.record().spec_limit(),
            Self::apply_step(a, b, true),
        ensures
            b.spec_branch() == a.spec_branch(),
            forall|id: int| #[trigger] b.branch_at(id) == a.branch_at(id),
    {
        let (r, merged) = choose|r: Record<C, F>, merged: bool| #[trigger] Self::parents_kept(a, b, r, merged);
        assert forall|id: int| #[trigger] b.branch_at(id) == a.branch_at(id) by {
            if id == a.spec_branch() {
                assert(b.branch_at(id) is None);
            } else if b.branch_at(id) is Some {
                assert(a.branch_at(id) is Some);
            } else if a.branch_at(id) is Some {
                assert(b.branch_at(id) is Some);
            }
        }
    }

    /// Cancelling, through a checkpoint, a command that was pushed at the
    /// end of the current branch gives back the commands and the position
    /// from before, when it was offered to no command for merging and the
    /// limit was not reached.
    pub proof fn law_cancel_restores_apply(a: &Self, b: &Self, c: &Self)
        requires
            a.inv(),
            !a.record().may_merge(),
            a.spec_current() == a.record().spec_len(),
            a.spec_current() < a.record().spec_limit(),
            Self::apply_step(a, b, true),
            Self::cancel_step(b, CheckpointCommand::Apply(At::new_spec(a.spec_branch(), a.spec_current())), c, true),
        ensures
            c.spec_branch() == a.spec_branch(),
            c.record().entries() == a.record().entries(),
            c.spec_current() == a.spec_current(),
    {
        let k = a.spec_current() as int;
        let at = At::new_spec(a.spec_branch(), a.spec_current());
        let r = choose|r: Record<C, F>| #[trigger] Record::applied(&a.record(), &r) && r.inv()
            && r.entries() == b.record().entries() && r.spec_current() == b.spec_current();
        assert(Record::applied_pushed(&a.record(), &r));
        assert(a.record().entries().take(k) =~= a.record().entries());
        let mid = choose|mid: Self| #[trigger] Self::go_to_step(b, at.branch, at.current, &mid, true)
            && Self::dropped(&mid, b.spec_branch(), at, c);
        assert(b.spec_branch() == a.spec_branch());
        assert(b.record().spec_len() == k + 1);
        assert(b.record().entries().take(k) =~= a.record().entries());
        assert(Record::went_to(&b.record(), &mid.record(), k, true));
        assert(mid.record().entries().len() == k + 1);
        assert forall|j: int| 0 <= j < k implies #[trigger] mid.record().entries()[j] == a.record().entries()[j] by {
            assert(b.record().entries().take(k)[j] == b.record().entries()[j]);
        }
        assert(mid.record().entries().drop_last() =~= a.record().entries());
    }
}

/// Wraps a history and gives it checkpoint functionality: the changes made
/// through the checkpoint can be cancelled.
pub struct Checkpoint<'a, C: Command, F> {
    /// The history the changes are made to.
    pub history: &'a mut History<C, F>,
    /// What was done through the checkpoint, first first.
    pub commands: Vec<CheckpointCommand>,
}

impl<'a, C: Command, F: FnMut(Signal)> Checkpoint<'a, C, F> {
    /// Returns a checkpoint on `history`.
    pub fn new(history: &'a mut History<C, F>) -> (c: Checkpoint<'a, C, F>)
        ensures
            *c.history == *old(history),
            *final(c.history) == *final(history),
            c.commands@ == Seq::<CheckpointCommand>::empty(),
    {
        Checkpoint { history, commands: Vec::new() }
    }

    /// Calls the `apply` method.
    pub fn apply(&mut self, command: C) -> (r: Result<C>)
        requires
            old(self).history.inv(),
        ensures
            History::apply_step(&*old(self).history, &*final(self).history, r is Ok),
            r is Ok ==> final(self).commands@ == old(self).commands@.push(CheckpointCommand::Apply(
                At::new_spec(old(self).history.spec_branch(), old(self).history.spec_current()))),
            r is Err ==> final(self).commands@ == old(self).commands@,
    {
        let at = self.history.at();
        match self.history.apply(command) {
            Ok(()) => {
                self.commands.push(CheckpointCommand::Apply(at));
                Ok(())
            },
            Err(err) => Err(err),
        }
    }

    /// Calls the `undo` method, and notes it if something was undone.
    pub fn undo(&mut self) -> (r: Result<C>)
        requires
            old(self).history.inv(),
        ensures
            History::undo_step(&*old(self).history, &*final(self).history, r is Ok),
            final(self).commands@ == (if old(self).history.record().spec_can_undo() && r is Ok {
                old(self).commands@.push(CheckpointCommand::Undo)
            } else {
                old(self).commands@
            }),
    {
        if self.history.can_undo() {
            match self.history.undo() {
                Ok(()) => {},
                Err(err) => return Err(err),
            }
            self.commands.push(CheckpointCommand::Undo);
        }
        Ok(())
    }

    /// Calls the `redo` method, and notes it if something was redone.
    pub fn redo(&mut self) -> (r: Result<C>)
        requires
            old(self).history.inv(),
        ensures
            History::redo_step(&*old(self).history, &*final(self).history, r is Ok),
            final(self).commands@ == (if old(self).history.record().spec_can_redo() && r is Ok {
                old(self).commands@.push(CheckpointCommand::Redo)
            } else {
                old(self).commands@
            }),
    {
        if self.history.can_redo() {
            match self.history.redo() {
                Ok(()) => {},
                Err(err) => return Err(err),
            }
            self.commands.push(CheckpointCommand::Redo);
        }
        Ok(())
    }

    /// Calls the `go_to` method, and notes the position it left if it
    /// succeeded.
    pub fn go_to(&mut self, branch: usize, current: usize) -> (r: Option<Result<C>>)
        requires
            old(self).history.inv(),
        ensures
            final(self).history.inv(),
            branch == old(self).history.spec_branch() && current > old(self).history.record().spec_len() ==> {
                &&& r is None
                &&& final(self).history.record().entries() == old(self).history.record().entries()
                &&& final(self).history.spec_current() == old(self).history.spec_current()
                &&& final(self).history.record().same_frame(&old(self).history.record())
                &&& final(self).history.record().view_target() == old(self).history.record().view_target()
                &&& final(self).history.same_tree(old(self).history)
            },
            branch == old(self).history.spec_branch() && current <= old(self).history.record().spec_len() ==> {
                &&& r is Some
                &&& Record::went_to(&old(self).history.record(), &final(self).history.record(), current as int,
                        r == Some(Result::<C>::Ok(())))
                &&& final(self).history.same_tree(old(self).history)
            },
            branch != old(self).history.spec_branch() && old(self).history.branch_at(branch as int) is None ==> {
                &&& r is None
                &&& final(self).history.record() == old(self).history.record()
                &&& final(self).history.same_tree(old(self).history)
            },
            r == Some(Result::<C>::Ok(())) ==> final(self).history.spec_current() == current,
            final(self).commands@ == (if r == Some(Result::<C>::Ok(())) {
                old(self).commands@.push(CheckpointCommand::GoTo(
                    At::new_spec(old(self).history.spec_branch(), old(self).history.spec_current())))
            } else {
                old(self).commands@
            }),
    {
        let at = self.history.at();
        let r = self.history.go_to(branch, current);
        match r {
            Some(Ok(unit)) => {
                assert(r == Some(Result::<C>::Ok(unit)));
                self.commands.push(CheckpointCommand::GoTo(at));
                Some(Ok(unit))
            },
            Some(Err(err)) => Some(Err(err)),
            None => None,
        }
    }

    /// Calls the `apply` method for each of `commands`, in order, stopping at
    /// the first error.
    pub fn extend(&mut self, commands: Vec<C>) -> (r: Result<C>)
        requires
            old(self).history.inv(),
        ensures
            final(self).history.inv(),
            r is Ok ==> History::runs(&*old(self).history, applies(commands@), &*final(self).history),
            r is Err ==> History::fails(&*old(self).history, applies(commands@), &*final(self).history),
            final(self).commands@.len() >= old(self).commands@.len(),
            final(self).commands@.take(old(self).commands@.len() as int) == old(self).commands@,
            forall|i: int| old(self).commands@.len() <= i < final(self).commands@.len()
                ==> #[trigger] final(self).commands@[i] is Apply,
            r is Ok ==> final(self).commands@.len() == old(self).commands@.len() + commands@.len(),
    {
        let ghost start = *self.history;
        let ghost all = applies(commands@);
        let ghost n0 = self.commands@.len();
        let mut pending = reversed(commands);
        let ghost mut done: int = 0;
        assert(History::runs(&start, all.take(0), &*self.history)) by {
            assert(all.take(0) =~= Seq::<QueueCommand<C>>::empty());
        }
        assert(self.commands@.take(n0 as int) =~= self.commands@);
        assert(all.take(all.len() as int) =~= all);
        let mut outcome: Result<C> = Ok(());
        while pending.len() > 0
            invariant_except_break
                applies(pending@.reverse()) =~= all.skip(done),
                all.take(all.len() as int) == all,
                pending@.len() + done == all.len(),
                History::runs(&start, all.take(done), &*self.history),
                self.commands@.len() == n0 + done,
                outcome is Ok,
            invariant
                self.history.inv(),
                0 <= done <= all.len(),
                all.len() == commands@.len(),
                n0 == old(self).commands@.len(),
                self.commands@.len() >= n0,
                self.commands@.take(n0 as int) == old(self).commands@,
                forall|i: int| n0 <= i < self.commands@.len() ==> #[trigger] self.commands@[i] is Apply,
            ensures
                self.history.inv(),
                outcome is Ok ==> History::runs(&start, all, &*self.history),
                outcome is Ok ==> self.commands@.len() == n0 + all.len(),
                outcome is Err ==> History::fails(&start, all, &*self.history),
            decreases pending.len(),
        {
            let ghost before = *self.history;
            let ghost rest = pending@;
            let ghost cs = self.commands@;
            let command = pending.pop().unwrap();
            proof {
                assert(rest.reverse()[0] == rest[rest.len() - 1]);
                assert(applies(rest.reverse())[0] == QueueCommand::Apply(rest.reverse()[0]));
                assert(all.skip(done)[0] == all[done]);
                assert(all[done] == QueueCommand::Apply(command));
                assert(applies(rest.reverse()).skip(1) =~= applies(pending@.reverse()));
            }
            match self.apply(command) {
                Ok(()) => {
                    proof {
                        History::lemma_runs_push(&start, all.take(done), &before, QueueCommand::Apply(command), &*self.history);
                        assert(all.take(done).push(QueueCommand::Apply(command)) =~= all.take(done + 1));
                        assert(self.commands@.take(n0 as int) =~= cs.take(n0 as int));
                        done = done + 1;
                    }
                },
                Err(err) => {
                    assert(History::action_step(&before, all[done], &*self.history, false));
                    assert(History::fails(&start, all, &*self.history));
                    outcome = Err(err);
                    break;
                },
            }
            proof {
                if pending.len() == 0 {
                    assert(all.take(done) =~= all);
                }
            }
        }
        outcome
    }

    /// Reserves capacity for at least `additional` more changes in the
    /// checkpoint.
    pub fn reserve(&mut self, additional: usize)
        ensures
            *final(self).history == *old(self).history,
            final(self).commands@ == old(self).commands@,
    {
        self.commands.reserve(additional);
    }

    /// Returns the capacity of the checkpoint.
    pub fn capacity(&self) -> (c: usize)
        ensures
            c >= self.commands@.len(),
    {
        vec_capacity(&self.commands)
    }

    /// Shrinks the capacity of the checkpoint as much as possible.
    pub fn shrink_to_fit(&mut self)
        ensures
            *final(self).history == *old(self).history,
            final(self).commands@ == old(self).commands@,
    {
        vec_shrink_to_fit(&mut self.commands);
    }

    /// Returns the number of changes noted in the checkpoint.
    pub fn len(&self) -> (n: usize)
        ensures
            n == self.commands@.len(),
    {
        self.commands.len()
    }

    /// Returns `true` if no change is noted in the checkpoint.
    pub fn is_empty(&self) -> (b: bool)
        ensures
            b == (self.commands@.len() == 0),
    {
        self.commands.len() == 0
    }

    /// Commits the changes and consumes the checkpoint.
    pub fn commit(self)
        ensures
            *final(self.history) == *old(self.history),
    {
    }

    /// Cancels the changes and consumes the checkpoint: the last change
    /// first, each applied command is taken back by going to where it was
    /// applied and dropping it, each undo is redone and each redo undone.
    ///
    /// # Errors
    /// If an error occurs when canceling the changes, the error is returned
    /// and the remaining changes are not canceled.
    pub fn cancel(self) -> (r: Result<C>)
        requires
            old(self.history).inv(),
        ensures
            final(self.history).inv(),
            r is Ok ==> History::cancels(&*old(self.history), self.commands@, &*final(self.history)),
            r is Err ==> History::cancel_fails(&*old(self.history), self.commands@, &*final(self.history)),
    {
        let Checkpoint { history, commands } = self;
        let ghost start = *history;
        let ghost all = commands@;
        let mut commands = commands;
        let mut outcome: Result<C> = Ok(());
        assert(all.skip(all.len() as int) =~= Seq::<CheckpointCommand>::empty());
        assert(all.skip(0) =~= all);
        assert(all.take(all.len() as int) =~= all);
        while commands.len() > 0
            invariant_except_break
                all.skip(0) == all,
                commands@ == all.take(commands@.len() as int),
                History::cancels(&start, all.skip(commands@.len() as int), &*history),
                outcome is Ok,
            invariant
                history.inv(),
                commands@.len() <= all.len(),
            ensures
                history.inv(),
                outcome is Ok ==> History::cancels(&start, all, &*history),
                outcome is Err ==> History::cancel_fails(&start, all, &*history),
            decreases commands.len(),
        {
            let ghost before = *history;
            let ghost n = commands@.len() as int;
            let action = commands.pop().unwrap();
            assert(all[n - 1] == action);
            let result = match action {
                CheckpointCommand::Apply(at) => {
                    let root = history.root;
                    let r = history.go_to(at.branch, at.current);
                    match r {
                        Some(Err(err)) => {
                            assert(History::go_to_step(&before, at.branch, at.current, &*history, false));
                            assert(History::cancel_step(&before, action, &*history, false));
                            Err(err)
                        },
                        _ => {
                            proof {
                                if let Some(Ok(unit)) = r {
                                    assert(r == Some(Result::<C>::Ok(unit)));
                                }
                            }
                            assert(History::go_to_step(&before, at.branch, at.current, &*history, true));
                            let ghost mid = *history;
                            if root == at.branch {
                                history.record.pop_unapplied();
                            } else if root < history.branches.len() && root != history.root {
                                history.branches.set(root, None);
                            }
                            assert(History::dropped(&mid, before.spec_branch(), at, &*history));
                            assert(History::cancel_step(&before, action, &*history, true));
                            Ok(())
                        },
                    }
                },
                CheckpointCommand::Undo => history.redo(),
                CheckpointCommand::Redo => history.undo(),
                CheckpointCommand::GoTo(at) => {
                    let r = history.go_to(at.branch, at.current);
                    match r {
                        Some(Err(err)) => {
                            assert(History::go_to_step(&before, at.branch, at.current, &*history, false));
                            Err(err)
                        },
                        _ => {
                            proof {
                                if let Some(Ok(unit)) = r {
                                    assert(r == Some(Result::<C>::Ok(unit)));
                                }
                            }
                            assert(History::go_to_step(&before, at.branch, at.current, &*history, true));
                            Ok(())
                        },
                    }
                },
            };
            match result {
                Ok(()) => {
                    proof {
                        History::lemma_cancels_prepend(&start, all.skip(n), &before, action, &*history);
                        assert(seq![action] + all.skip(n) =~= all.skip(n - 1));
                        assert(commands@ =~= all.take(n - 1));
                    }
                },
                Err(err) => {
                    assert(all.skip(n - 1 + 1) == all.skip(n));
                    assert(History::cancel_fails(&start, all, &*history));
                    outcome = Err(err);
                    break;
                },
            }
            proof {
                if commands@.len() == 0 {
                    assert(all.skip(0) =~= all);
                }
            }
        }
        outcome
    }

    /// Returns a queue on the same history.
    pub fn queue(&mut self) -> (q: Queue<'_, C, F>)
        ensures
            *q.history == *old(self).history,
            *final(q.history) == *final(self).history,
            q.commands@ == Seq::<QueueCommand<C>>::empty(),
            final(self).commands@ == old(self).commands@,
    {
        self.history.queue()
    }

    /// Returns a checkpoint on the same history.
    pub fn checkpoint(&mut self) -> (c: Checkpoint<'_, C, F>)
        ensures
            *c.history == *old(self).history,
            *final(c.history) == *final(self).history,
            c.commands@ == Seq::<CheckpointCommand>::empty(),
            final(self).commands@ == old(self).commands@,
    {
        self.history.checkpoint()
    }

    /// Returns a reference to the target.
    pub fn target(&self) -> (t: &C::Target)
        ensures
            *t == old(self.history).record().view_target(),
    {
        self.history.target()
    }

    /// Returns a mutable reference to the target.
    ///
    /// This method should **only** be used when doing changes that should not be able to be undone.
    pub fn target_mut(&mut self) -> (t: &mut C::Target)
        requires
            old(self).history.inv(),
        ensures
            *t == old(self).history.record().view_target(),
            final(self).history.record().view_target() == *final(t),
            final(self).history.inv(),
            final(self).history.record().entries() == old(self).history.record().entries(),
            final(self).history.spec_current() == old(self).history.spec_current(),
            final(self).history.record().same_frame(&old(self).history.record()),
            final(self).history.same_tree(old(self).history),
            final(self).commands@ == old(self).commands@,
    {
        self.history.target_mut()
    }
}

impl<C: Command, F: FnMut(Signal)> History<C, F> {
    /// Returns a queue.
    pub fn queue(&mut self) -> (q: Queue<'_, C, F>)
        ensures
            *q.history == *old(self),
            *final(q.history) == *final(self),
            q.commands@ == Seq::<QueueCommand<C>>::empty(),
    {
        Queue { history: self, commands: Vec::new() }
    }

    /// Returns a checkpoint.
    pub fn checkpoint(&mut self) -> (c: Checkpoint<'_, C, F>)
        ensures
            *c.history == *old(self),
            *final(c.history) == *final(self),
            c.commands@ == Seq::<CheckpointCommand>::empty(),
    {
        Checkpoint { history: self, commands: Vec::new() }
    }
}

impl<C: Command + ToString, F> History<C, F> {
    /// Returns the text of the command that the next call to `undo` will
    /// undo, if there is one.
    pub fn undo_text(&self) -> (text: Option<String>)
        requires
            self.inv(),
        ensures
            text is Some <==> self.record().spec_can_undo(),
    {
        self.record.undo_text()
    }

    /// Returns the text of the command that the next call to `redo` will
    /// redo, if there is one.
    pub fn redo_text(&self) -> (text: Option<String>)
        requires
            self.inv(),
        ensures
            text is Some <==> self.record().spec_can_redo(),
    {
        self.record.redo_text()
    }
}

/// Builder for a history.
#[derive(Debug)]
pub struct Builder {
    inner: crate::record::Builder,
}

impl Builder {
    /// The capacity the history is built with.
    pub closed spec fn spec_capacity(&self) -> usize {
        self.inner.spec_capacity()
    }

    /// The limit the history is built with.
    pub closed spec fn spec_limit(&self) -> usize {
        self.inner.spec_limit()
    }

    /// Whether the history is built in a saved state.
    pub closed spec fn spec_saved(&self) -> bool {
        self.inner.spec_saved()
    }

    /// Returns the capacity the history is built with.
    pub fn get_capacity(&self) -> (c: usize)
        ensures
            c == self.spec_capacity(),
    {
        self.inner.get_capacity()
    }

    /// Returns the limit the history is built with.
    pub fn get_limit(&self) -> (l: usize)
        ensures
            l == self.spec_limit(),
            l > 0,
    {
        self.inner.get_limit()
    }

    /// Returns whether the history is built in a saved state.
    pub fn get_saved(&self) -> (b: bool)
        ensures
            b == self.spec_saved(),
    {
        self.inner.get_saved()
    }

    /// Returns a builder for a history.
    pub fn new() -> (b: Builder)
        ensures
            b.spec_capacity() == 0,
            b.spec_limit() == usize::MAX,
            b.spec_saved(),
    {
        Builder { inner: crate::record::Builder::new() }
    }

    /// Sets the capacity for the history.
    pub fn capacity(&mut self, capacity: usize) -> (b: &mut Builder)
        ensures
            b.spec_capacity() == capacity,
            b.spec_limit() == old(self).spec_limit(),
            b.spec_saved() == old(self).spec_saved(),
            *final(self) == *final(b),
    {
        self.inner.capacity(capacity);
        self
    }

    /// Sets the `limit` for the history.
    ///
    /// The limit can not be `0`.
    pub fn limit(&mut self, limit: usize) -> (b: &mut Builder)
        requires
            limit != 0,
        ensures
            b.spec_capacity() == old(self).spec_capacity(),
            b.spec_limit() == limit,
            b.spec_saved() == old(self).spec_saved(),
            *final(self) == *final(b),
    {
        self.inner.limit(limit);
        self
    }

    /// Sets if the target is initially in a saved state.
    /// By default the target is in a saved state.
    pub fn saved(&mut self, saved: bool) -> (b: &mut Builder)
        ensures
            b.spec_capacity() == old(self).spec_capacity(),
            b.spec_limit() == old(self).spec_limit(),
            b.spec_saved() == saved,
            *final(self) == *final(b),
    {
        self.inner.saved(saved);
        self
    }

    /// Builds the history.
    pub fn build<C: Command, F>(&self, target: C::Target) -> (h: History<C, F>)
        ensures
            h.inv(),
            h.record().entries() == Seq::<Entry<C>>::empty(),
            h.spec_current() == 0,
            h.record().spec_limit() == self.spec_limit(),
            h.record().saved_at() == (if self.spec_saved() { Some(0usize) } else { None }),
            h.record().view_target() == target,
            !h.record().connected(),
            h.spec_branch() == 0,
            h.next() == 1,
            h.saved_elsewhere() is None,
            forall|id: int| #[trigger] h.branch_at(id) is None,
    {
        History::from_record(self.inner.build(target))
    }

    /// Builds the history with the slot.
    pub fn build_with<C: Command, F: FnMut(Signal)>(&self, target: C::Target, slot: F) -> (h: History<C, F>)
        ensures
            h.inv(),
            h.record().entries() == Seq::<Entry<C>>::empty(),
            h.spec_current() == 0,
            h.record().spec_limit() == self.spec_limit(),
            h.record().saved_at() == (if self.spec_saved() { Some(0usize) } else { None }),
            h.record().view_target() == target,
            h.record().view_slot() == Some(slot),
            h.spec_branch() == 0,
            h.next() == 1,
            h.saved_elsewhere() is None,
            forall|id: int| #[trigger] h.branch_at(id) is None,
    {
        History::from_record(self.inner.build_with(target, slot))
    }

    /// Creates the history with a default `target`.
    pub fn default<C: Command, F>(&self) -> (h: History<C, F>)
        where C::Target: Default,
        ensures
            h.inv(),
            h.record().entries() == Seq::<Entry<C>>::empty(),
            h.spec_current() == 0,
            h.record().spec_limit() == self.spec_limit(),
            h.record().saved_at() == (if self.spec_saved() { Some(0usize) } else { None }),
            !h.record().connected(),
            h.spec_branch() == 0,
    {
        self.build(C::Target::default())
    }

    /// Creates the history with a default `target` and with the slot.
    pub fn default_with<C: Command, F: FnMut(Signal)>(&self, slot: F) -> (h: History<C, F>)
        where C::Target: Default,
        ensures
            h.inv(),
            h.record().entries() == Seq::<Entry<C>>::empty(),
            h.spec_current() == 0,
            h.record().spec_limit() == self.spec_limit(),
            h.record().saved_at() == (if self.spec_saved() { Some(0usize) } else { None }),
            h.record().view_slot() == Some(slot),
            h.spec_branch() == 0,
    {
        self.build_with(C::Target::default(), slot)
    }
}

impl core::default::Default for Builder {
    fn default() -> Self {
        Builder::new()
    }
}

impl<C: Command, F> Default for History<C, F>
    where C::Target: Default,
{
    fn default() -> (h: History<C, F>)
        ensures
            h.inv(),
            h.record().entries() == Seq::<Entry<C>>::empty(),
            h.spec_current() == 0,
            h.record().spec_limit() == usize::MAX,
            h.record().saved_at() == Some(0usize),
            !h.record().connected(),
            h.spec_branch() == 0,
            h.next() == 1,
            h.saved_elsewhere() is None,
            forall|id: int| #[trigger] h.branch_at(id) is None,
    {
        History::new(C::Target::default())
    }
}

/// The position of the command number `j` (from 0) of a branch that grows
/// from position `current`: `j + 1` past it, wrapping around as `usize`
/// does.
pub open spec fn branch_position(j: usize, current: usize) -> usize {
    vstd::wrapping::usize_specs::wrapping_add(vstd::wrapping::usize_specs::wrapping_add(j, current), 1)
}

impl<C: Command, F> History<C, F> {
    /// The saved position, wherever it lies.
    pub open spec fn saved_position(&self) -> Option<At> {
        match self.record().saved_at() {
            Some(s) => Some(At::new_spec(self.spec_branch(), s)),
            None => self.saved_elsewhere(),
        }
    }

    /// The line for position `at` in a display of the history.
    pub open spec fn line<'a>(&'a self, at: At, entry: Option<&'a Entry<C>>, level: usize) -> Row<'a, C> {
        Row::Line {
            at,
            level,
            entry,
            current: at == At::new_spec(self.spec_branch(), self.spec_current()),
            saved: self.saved_position() == Some(at),
        }
    }

    /// The lines for position `at`, `level` branches deep: first, for each
    /// branch that grows from `at` in the order of their numbers, its lines
    /// and the line where it splits off; then the line of `at` itself.
    /// Branches are followed at most `fuel` deep.
    pub open spec fn graph<'a>(&'a self, at: At, entry: Option<&'a Entry<C>>, level: usize, fuel: nat) -> Seq<Row<'a, C>>
        decreases fuel, 3nat, 0nat,
    {
        self.children(at, level, fuel, self.next()) + seq![self.line(at, entry, level)]
    }

    /// The lines of the branches numbered below `k` that grow from `at`.
    pub open spec fn children<'a>(&'a self, at: At, level: usize, fuel: nat, k: nat) -> Seq<Row<'a, C>>
        decreases fuel, 2nat, k,
    {
        if k == 0 {
            Seq::empty()
        } else {
            self.children(at, level, fuel, (k - 1) as nat) + self.sprout(at, level, fuel, (k - 1) as nat)
        }
    }

    /// The lines of branch `id`, if it grows from `at`: those of its
    /// commands, the newest first, and the line where it splits off.
    pub open spec fn sprout<'a>(&'a self, at: At, level: usize, fuel: nat, id: nat) -> Seq<Row<'a, C>>
        decreases fuel, 1nat, 0nat,
    {
        match self.branch_at(id as int) {
            Some(b) => if b.parent == at && fuel > 0 {
                self.branch_rows(id, level, (fuel - 1) as nat, b.entries@.len()) + seq![Row::Split { level }]
            } else {
                Seq::empty()
            },
            None => Seq::empty(),
        }
    }

    /// The lines of the `m` newest commands of branch `id`, one level
    /// deeper than `level`, the newest first.
    pub open spec fn branch_rows<'a>(&'a self, id: nat, level: usize, fuel: nat, m: nat) -> Seq<Row<'a, C>>
        decreases fuel + 1, 0nat, m,
    {
        match self.branch_at(id as int) {
            Some(b) => if m == 0 || m > b.entries@.len() {
                Seq::empty()
            } else {
                let j = (b.entries@.len() - m) as usize;
                self.branch_rows(id, level, fuel, (m - 1) as nat) + self.graph(
                    At::new_spec(id as usize, branch_position(j, b.parent.current)),
                    Some(&b.entries@[j as int]),
                    (level + 1) as usize,
                    fuel,
                )
            },
            None => Seq::empty(),
        }
    }

    /// The lines of a display of the history, top to bottom: the commands
    /// of the current branch, the newest first, each after the branches that
    /// grow from it, and last the start of the current branch.
    pub open spec fn display_rows<'a>(&'a self) -> Seq<Row<'a, C>> {
        self.main_rows(self.record().spec_len() as nat)
            + self.graph(At::new_spec(self.spec_branch(), 0), None, 0, (self.next() - 1) as nat)
    }

    /// The lines of the `m` newest commands of the current branch.
    pub open spec fn main_rows<'a>(&'a self, m: nat) -> Seq<Row<'a, C>>
        decreases m,
    {
        let len = self.record().spec_len() as int;
        if m == 0 || m > len {
            Seq::empty()
        } else {
            self.main_rows((m - 1) as nat) + self.graph(
                At::new_spec(self.spec_branch(), (len - m + 1) as usize),
                Some(&self.record().entries()[len - m]),
                0,
                (self.next() - 1) as nat,
            )
        }
    }
}

/// Configurable display formatting for a history: the lines it shows, and
/// which parts of them.
pub struct Display<'a, C: Command, F> {
    /// The history shown.
    pub history: &'a History<C, F>,
    /// Which parts of the lines are shown.
    pub format: Format,
}

impl<C: Command, F> History<C, F> {
    /// Returns a structure for configurable formatting of the history.
    pub fn display(&self) -> (d: Display<'_, C, F>)
        ensures
            *d.history == *self,
            d.format == Format::all_on(),
    {
        Display { history: self, format: Format::new() }
    }
}

impl<'a, C: Command, F> Display<'a, C, F> {
    /// Show colored output (on by default).
    pub fn colored(&mut self, on: bool) -> (d: &mut Self)
        ensures
            d.history == old(self).history,
            d.format == (Format { colored: on, ..old(self).format }),
            *final(self) == *final(d),
    {
        self.format.colored = on;
        self
    }

    /// Show the current position in the output (on by default).
    pub fn current(&mut self, on: bool) -> (d: &mut Self)
        ensures
            d.history == old(self).history,
            d.format == (Format { current: on, ..old(self).format }),
            *final(self) == *final(d),
    {
        self.format.current = on;
        self
    }

    /// Show detailed output (on by default).
    pub fn detailed(&mut self, on: bool) -> (d: &mut Self)
        ensures
            d.history == old(self).history,
            d.format == (Format { detailed: on, ..old(self).format }),
            *final(self) == *final(d),
    {
        self.format.detailed = on;
        self
    }

    /// Show the position of the command (on by default).
    pub fn position(&mut self, on: bool) -> (d: &mut Self)
        ensures
            d.history == old(self).history,
            d.format == (Format { position: on, ..old(self).format }),
            *final(self) == *final(d),
    {
        self.format.position = on;
        self
    }

    /// Show the saved command (on by default).
    pub fn saved(&mut self, on: bool) -> (d: &mut Self)
        ensures
            d.history == old(self).history,
            d.format == (Format { saved: on, ..old(self).format }),
            *final(self) == *final(d),
    {
        self.format.saved = on;
        self
    }

    /// Returns the line for position `at`.
    fn line_row(&self, at: At, entry: Option<&'a Entry<C>>, level: usize) -> (row: Row<'a, C>)
        ensures
            row == self.history.line(at, entry, level),
    {
        let history: &'a History<C, F> = self.history;
        let current = at.branch == history.root && at.current == history.record.current();
        let saved = match history.record.saved_position() {
            Some(s) => at.branch == history.root && at.current == s,
            None => match history.saved {
                Some(other) => other.branch == at.branch && other.current == at.current,
                None => false,
            },
        };
        Row::Line { at, level, entry, current, saved }
    }

    /// Appends the lines for position `at`, `level` branches deep, following
    /// branches at most `fuel` deep.
    fn graph_rows(&self, at: At, entry: Option<&'a Entry<C>>, level: usize, fuel: usize, rows: &mut Vec<Row<'a, C>>)
        requires
            level + fuel < usize::MAX,
        ensures
            final(rows)@ == old(rows)@ + self.history.graph(at, entry, level, fuel as nat),
        decreases fuel,
    {
        let history: &'a History<C, F> = self.history;
        let n = history.branches.len();
        let mut i: usize = 0;
        while i < n
            invariant
                history == self.history,
                n == history.next(),
                i <= n,
                level + fuel < usize::MAX,
                rows@ == old(rows)@ + history.children(at, level, fuel as nat, i as nat),
            decreases n - i,
        {
            let ghost before = rows@;
            match &history.branches[i] {
                Some(b) => {
                    if b.parent.branch == at.branch && b.parent.current == at.current && fuel > 0 {
                        let len = b.entries.len();
                        let mut m: usize = 0;
                        while m < len
                            invariant
                                history == self.history,
                                history.branch_at(i as int) == Some(*b),
                                n == history.next(),
                                i < n,
                                before == old(rows)@ + history.children(at, level, fuel as nat, i as nat),
                                len == b.entries@.len(),
                                m <= len,
                                fuel > 0,
                                level + fuel < usize::MAX,
                                rows@ == before + history.branch_rows(i as nat, level, (fuel - 1) as nat, m as nat),
                            decreases len - m,
                        {
                            let j = len - 1 - m;
                            let here = At::new(i, j.wrapping_add(b.parent.current).wrapping_add(1));
                            let entry: &'a Entry<C> = &b.entries[j];
                            self.graph_rows(here, Some(entry), level + 1, fuel - 1, rows);
                            proof {
                                assert(here == At::new_spec(i, branch_position(j, b.parent.current)));
                                assert(history.branch_rows(i as nat, level, (fuel - 1) as nat, (m + 1) as nat)
                                    == history.branch_rows(i as nat, level, (fuel - 1) as nat, m as nat) + history.graph(
                                        here, Some(&b.entries@[j as int]), (level + 1) as usize, (fuel - 1) as nat));
                                assert(rows@ =~= before + history.branch_rows(i as nat, level, (fuel - 1) as nat, (m + 1) as nat));
                            }
                            m += 1;
                        }
                        rows.push(Row::Split { level });
                        proof {
                            assert(history.sprout(at, level, fuel as nat, i as nat)
                                == history.branch_rows(i as nat, level, (fuel - 1) as nat, len as nat) + seq![Row::Split { level }]);
                            assert(rows@ =~= old(rows)@ + history.children(at, level, fuel as nat, (i + 1) as nat));
                        }
                    } else {
                        assert(history.sprout(at, level, fuel as nat, i as nat) == Seq::<Row<'a, C>>::empty());
                        assert(rows@ =~= old(rows)@ + history.children(at, level, fuel as nat, (i + 1) as nat));
                    }
                },
                None => {
                    assert(history.branch_at(i as int) is None);
                    assert(history.sprout(at, level, fuel as nat, i as nat) == Seq::<Row<'a, C>>::empty());
                    assert(rows@ =~= old(rows)@ + history.children(at, level, fuel as nat, (i + 1) as nat));
                },
            }
            i += 1;
        }
        let row = self.line_row(at, entry, level);
        rows.push(row);
        assert(rows@ =~= old(rows)@ + history.graph(at, entry, level, fuel as nat));
    }

    /// The lines of the display, top to bottom: the commands of the current
    /// branch, the newest first, each after the branches that grow from it,
    /// and last the start of the current branch.
    pub fn rows(&self) -> (rows: Vec<Row<'a, C>>)
        requires
            self.history.inv(),
        ensures
            rows@ == self.history.display_rows(),
    {
        let history: &'a History<C, F> = self.history;
        let branch = history.root;
        let fuel = history.branches.len() - 1;
        let len = history.record.len();
        let mut rows: Vec<Row<'a, C>> = Vec::new();
        let mut m: usize = 0;
        while m < len
            invariant
                history == self.history,
                len == history.record().spec_len(),
                fuel == history.next() - 1,
                fuel < usize::MAX,
                branch == history.spec_branch(),
                history.record().inv(),
                m <= len,
                rows@ == history.main_rows(m as nat),
            decreases len - m,
        {
            let i = len - m;
            let ghost before = rows@;
            let entry: &'a Entry<C> = history.record.entry(i - 1);
            self.graph_rows(At::new(branch, i), Some(entry), 0, fuel, &mut rows);
            proof {
                assert(history.main_rows((m + 1) as nat) == history.main_rows(m as nat) + history.graph(
                    At::new_spec(branch, i), Some(entry), 0, fuel as nat));
                assert(rows@ =~= history.main_rows((m + 1) as nat));
            }
            m += 1;
        }
        self.graph_rows(At::new(branch, 0), None, 0, fuel, &mut rows);
        rows
    }
}

} // verus!
