//! A record of commands.

use vstd::prelude::*;
use crate::command::{Command, Merge, Result, Signal};
use crate::entry::{At, Entry, Timestamp};
use crate::format::{Format, Row};
use crate::slot::Slot;

verus! {

/// Calls `Vec::capacity` of std: the number of elements the vector can hold
/// without reallocating. Its documentation promises at least the length.
#[verifier::external_body]
pub(crate) fn vec_capacity<T>(v: &Vec<T>) -> (c: usize)
    ensures
        c >= v@.len(),
{
    v.capacity()
}

/// Calls `Vec::shrink_to_fit` of std, which changes the allocation only:
/// the elements stay as they were.
#[verifier::external_body]
pub(crate) fn vec_shrink_to_fit<T>(v: &mut Vec<T>)
    ensures
        final(v)@ == old(v)@,
{
    v.shrink_to_fit()
}

/// Returns the elements of `v` in reverse order.
pub(crate) fn reversed<T>(v: Vec<T>) -> (r: Vec<T>)
    ensures
        r@ == v@.reverse(),
{
    let ghost all = v@;
    let mut v = v;
    let mut r: Vec<T> = Vec::new();
    while v.len() > 0
        invariant
            all == v@ + r@.reverse(),
        decreases v.len(),
    {
        let ghost before = v@;
        let x = v.pop().unwrap();
        r.push(x);
        assert(before =~= v@.push(x));
        assert(r@.reverse() =~= seq![x] + r@.drop_last().reverse());
        assert(v@ + r@.reverse() =~= before + r@.drop_last().reverse());
    }
    assert(r@.reverse().reverse() =~= r@);
    assert(all.reverse() =~= r@.reverse().reverse());
    r
}

/// Calls `ToString::to_string` of std on `value`: the text its `Display`
/// implementation writes. That implementation is the user's, so nothing is
/// claimed of the text.
#[verifier::external_body]
pub(crate) fn text_of<T: ToString>(value: &T) -> String {
    value.to_string()
}

/// `signal` where `cond` holds, and nothing otherwise.
pub open spec fn sent(cond: bool, signal: Signal) -> Seq<Signal> {
    if cond { seq![signal] } else { Seq::empty() }
}

/// The saved position that survives cutting the record at `current`:
/// a saved position beyond the cut is lost.
pub open spec fn keep_saved(saved: Option<usize>, current: nat) -> Option<usize> {
    match saved {
        Some(s) => if s <= current { Some(s) } else { None },
        None => None,
    }
}

/// The saved position after the oldest command has been dropped.
pub open spec fn shift_saved(saved: Option<usize>) -> Option<usize> {
    match saved {
        Some(s) => if s >= 1 { Some((s - 1) as usize) } else { None },
        None => None,
    }
}

/// `b` holds the commands of `a` in the same order, with the same
/// timestamps; only the commands at positions in `[lo, hi)` may differ.
pub open spec fn same_outside<C>(a: Seq<Entry<C>>, b: Seq<Entry<C>>, lo: int, hi: int) -> bool {
    &&& a.len() == b.len()
    &&& forall|j: int| 0 <= j < a.len() ==> #[trigger] b[j].timestamp == a[j].timestamp
    &&& forall|j: int| 0 <= j < a.len() && !(lo <= j < hi) ==> #[trigger] b[j] == a[j]
}

/// The timestamps of `entries` never decrease.
pub open spec fn chronological<C>(entries: Seq<Entry<C>>) -> bool {
    forall|i: int, j: int|
        0 <= i <= j < entries.len() ==> !entries[j].timestamp.before(entries[i].timestamp)
}

/// A record of commands.
///
/// The record can roll the target's state backwards and forwards by using
/// the undo and redo methods. The first `current` commands are applied to
/// the target; the rest can be redone. The record notifies the connected
/// slot, if any, each time its state changes.
pub struct Record<C: Command, F> {
    pub(crate) entries: Vec<Entry<C>>,
    pub(crate) target: C::Target,
    pub(crate) current: usize,
    pub(crate) limit: usize,
    pub(crate) saved: Option<usize>,
    pub(crate) slot: Slot<F>,
}

impl<C: Command, F> Record<C, F> {
    /// The commands of the record, oldest first.
    pub closed spec fn entries(&self) -> Seq<Entry<C>> {
        self.entries@
    }

    /// The number of commands that are applied to the target.
    pub closed spec fn spec_current(&self) -> usize {
        self.current
    }

    /// The number of commands in the record.
    pub closed spec fn spec_len(&self) -> usize {
        self.entries.len()
    }

    /// The most commands the record keeps.
    pub closed spec fn spec_limit(&self) -> usize {
        self.limit
    }

    /// The position at which the target was saved, if it is known.
    pub closed spec fn saved_at(&self) -> Option<usize> {
        self.saved
    }

    /// The target.
    pub closed spec fn view_target(&self) -> C::Target {
        self.target
    }

    /// Whether a slot is connected.
    pub open spec fn connected(&self) -> bool {
        self.view_slot() is Some
    }

    /// The slot, if one is connected.
    pub closed spec fn view_slot(&self) -> Option<F> {
        self.slot.f
    }

    /// The signals sent to the slot so far, oldest first.
    pub closed spec fn signals(&self) -> Seq<Signal> {
        self.slot.log@
    }

    /// The signals after `s` was sent: a slot hears them only while one is
    /// connected.
    pub open spec fn told(&self, s: Seq<Signal>) -> Seq<Signal> {
        if self.connected() { self.signals() + s } else { self.signals() }
    }

    /// The signals sent when a record moved from `old` to `new`: whether it
    /// can undo, whether it can redo, and whether it is saved, each where it
    /// changed, in that order.
    pub open spec fn moved(old: &Self, new: &Self) -> Seq<Signal> {
        sent(old.spec_can_undo() != new.spec_can_undo(), Signal::Undo(new.spec_can_undo()))
            + sent(old.spec_can_redo() != new.spec_can_redo(), Signal::Redo(new.spec_can_redo()))
            + sent(old.spec_is_saved() != new.spec_is_saved(), Signal::Saved(new.spec_is_saved()))
    }

    /// The record is well formed: its length is that of its commands, no
    /// more commands are applied than it holds,
    /// and no more held than its limit, which is positive.
    pub open spec fn inv(&self) -> bool {
        &&& self.spec_len() == self.entries().len()
        &&& self.spec_current() <= self.spec_len()
        &&& self.spec_len() <= self.spec_limit()
        &&& self.spec_limit() > 0
    }

    /// The record can undo.
    pub open spec fn spec_can_undo(&self) -> bool {
        self.spec_current() > 0
    }

    /// The record can redo.
    pub open spec fn spec_can_redo(&self) -> bool {
        self.spec_current() < self.spec_len()
    }

    /// The target is in the saved state.
    pub open spec fn spec_is_saved(&self) -> bool {
        self.saved_at() == Some(self.spec_current())
    }

    /// Only the commands, the position and the target may differ between
    /// `self` and `other`: limit, saved position and connection are the same.
    pub open spec fn same_frame(&self, other: &Self) -> bool {
        &&& self.spec_limit() == other.spec_limit()
        &&& self.saved_at() == other.saved_at()
        &&& self.connected() == other.connected()
    }

    /// Returns a new record with the given target.
    pub fn new(target: C::Target) -> (record: Record<C, F>)
        ensures
            record.inv(),
            record.entries() == Seq::<Entry<C>>::empty(),
            record.spec_current() == 0,
            record.spec_limit() == usize::MAX,
            record.saved_at() == Some(0usize),
            record.view_target() == target,
            !record.connected(),
    {
        Builder::new().build(target)
    }

    /// Reserves capacity for at least `additional` more commands.
    pub fn reserve(&mut self, additional: usize)
        requires
            old(self).inv(),
        ensures
            final(self).inv(),
            final(self).entries() == old(self).entries(),
            final(self).spec_current() == old(self).spec_current(),
            final(self).same_frame(old(self)),
            final(self).view_target() == old(self).view_target(),
    {
        self.entries.reserve(additional);
    }

    /// Returns the capacity of the record.
    pub fn capacity(&self) -> (c: usize)
        ensures
            c >= self.spec_len(),
    {
        vec_capacity(&self.entries)
    }

    /// Shrinks the capacity of the record as much as possible.
    pub fn shrink_to_fit(&mut self)
        requires
            old(self).inv(),
        ensures
            final(self).inv(),
            final(self).entries() == old(self).entries(),
            final(self).spec_current() == old(self).spec_current(),
            final(self).same_frame(old(self)),
            final(self).view_target() == old(self).view_target(),
    {
        vec_shrink_to_fit(&mut self.entries);
    }

    /// Returns the number of commands in the record.
    #[verifier::when_used_as_spec(spec_len)]
    pub fn len(&self) -> (n: usize)
        ensures
            n == self.spec_len(),
    {
        self.entries.len()
    }

    /// Returns `true` if the record is empty.
    pub fn is_empty(&self) -> (b: bool)
        ensures
            b == (self.spec_len() == 0),
    {
        self.entries.len() == 0
    }

    /// Returns the limit of the record.
    #[verifier::when_used_as_spec(spec_limit)]
    pub fn limit(&self) -> (n: usize)
        ensures
            n == self.spec_limit(),
    {
        self.limit
    }

    /// Returns the position of the current command.
    #[verifier::when_used_as_spec(spec_current)]
    pub fn current(&self) -> (n: usize)
        ensures
            n == self.spec_current(),
    {
        self.current
    }

    /// Returns `true` if the record can undo.
    #[verifier::when_used_as_spec(spec_can_undo)]
    pub fn can_undo(&self) -> (b: bool)
        ensures
            b == self.spec_can_undo(),
    {
        self.current > 0
    }

    /// Returns `true` if the record can redo.
    #[verifier::when_used_as_spec(spec_can_redo)]
    pub fn can_redo(&self) -> (b: bool)
        ensures
            b == self.spec_can_redo(),
    {
        self.current < self.entries.len()
    }

    /// Returns `true` if the target is in a saved state, `false` otherwise.
    #[verifier::when_used_as_spec(spec_is_saved)]
    pub fn is_saved(&self) -> (b: bool)
        ensures
            b == self.spec_is_saved(),
    {
        match self.saved {
            Some(saved) => saved == self.current,
            None => false,
        }
    }

    /// Sets how the signal should be handled when the state changes.
    ///
    /// The previous slot is returned if it exists.
    pub fn connect(&mut self, slot: F) -> (previous: Option<F>)
        requires
            old(self).inv(),
        ensures
            final(self).inv(),
            previous == old(self).view_slot(),
            final(self).view_slot() == Some(slot),
            final(self).signals() == old(self).signals(),
            final(self).entries() == old(self).entries(),
            final(self).spec_current() == old(self).spec_current(),
            final(self).spec_limit() == old(self).spec_limit(),
            final(self).saved_at() == old(self).saved_at(),
            final(self).view_target() == old(self).view_target(),
    {
        let previous = self.slot.f.take();
        self.slot.f = Some(slot);
        previous
    }

    /// Removes and returns the slot.
    pub fn disconnect(&mut self) -> (previous: Option<F>)
        requires
            old(self).inv(),
        ensures
            final(self).inv(),
            previous == old(self).view_slot(),
            final(self).view_slot() is None,
            final(self).signals() == old(self).signals(),
            final(self).entries() == old(self).entries(),
            final(self).spec_current() == old(self).spec_current(),
            final(self).spec_limit() == old(self).spec_limit(),
            final(self).saved_at() == old(self).saved_at(),
            final(self).view_target() == old(self).view_target(),
    {
        self.slot.f.take()
    }

    /// Returns a reference to the `target`.
    pub fn target(&self) -> (t: &C::Target)
        ensures
            *t == self.view_target(),
    {
        &self.target
    }

    /// Returns a mutable reference to the `target`.
    ///
    /// This method should **only** be used when doing changes that should not be able to be undone.
    pub fn target_mut(&mut self) -> (t: &mut C::Target)
        requires
            old(self).inv(),
        ensures
            *t == old(self).view_target(),
            final(self).view_target() == *final(t),
            final(self).inv(),
            final(self).entries() == old(self).entries(),
            final(self).spec_current() == old(self).spec_current(),
            final(self).same_frame(old(self)),
    {
        &mut self.target
    }

    /// Consumes the record, returning the `target`.
    pub fn into_target(self) -> (t: C::Target)
        ensures
            t == self.view_target(),
    {
        self.target
    }
}

impl<C: Command, F> Record<C, F> {
    /// Takes the record apart: its commands, target, position, limit and
    /// saved position. The slot is dropped.
    pub fn into_parts(self) -> (parts: (Vec<Entry<C>>, C::Target, usize, usize, Option<usize>))
        ensures
            parts.0@ == self.entries(),
            parts.1 == self.view_target(),
            parts.2 == self.spec_current(),
            parts.3 == self.spec_limit(),
            parts.4 == self.saved_at(),
    {
        (self.entries, self.target, self.current, self.limit, self.saved)
    }

    /// Returns whether the record is well formed (`inv`); every record the
    /// library hands out is.
    pub fn is_well_formed(&self) -> (b: bool)
        ensures
            b == self.inv(),
    {
        self.current <= self.entries.len() && self.entries.len() <= self.limit && self.limit > 0
    }

    /// Puts a record together from its parts, with no slot connected.
    /// Returns `None` unless no more commands are applied than given, and no
    /// more given than the limit, which is positive.
    pub fn from_parts(
        entries: Vec<Entry<C>>,
        target: C::Target,
        current: usize,
        limit: usize,
        saved: Option<usize>,
    ) -> (r: Option<Record<C, F>>)
        ensures
            r is Some <==> (current <= entries@.len() && entries@.len() <= limit && limit > 0),
            r matches Some(record) ==> {
                &&& record.inv()
                &&& record.entries() == entries@
                &&& record.view_target() == target
                &&& record.spec_current() == current
                &&& record.spec_limit() == limit
                &&& record.saved_at() == saved
                &&& !record.connected()
            },
    {
        if current <= entries.len() && entries.len() <= limit && limit > 0 {
            Some(Record { entries, target, current, limit, saved, slot: Slot::new() })
        } else {
            None
        }
    }
}

impl<C: Command, F> Record<C, F> {
    /// `new` is `old` after `apply`, which succeeded if `ok` holds: on
    /// success the command was applied as `applied` says; on failure the
    /// commands, the position and the saved state are as they were.
    pub open spec fn apply_step(old: &Self, new: &Self, ok: bool) -> bool {
        &&& new.inv()
        &&& new.spec_limit() == old.spec_limit()
        &&& new.connected() == old.connected()
        &&& ok ==> Self::applied(old, new)
        &&& ok ==> new.signals() == old.told(Self::apply_signals(old))
        &&& !ok ==> {
            &&& new.entries() == old.entries()
            &&& new.spec_current() == old.spec_current()
            &&& new.saved_at() == old.saved_at()
            &&& new.signals() == old.signals()
            &&& new.view_slot() == old.view_slot()
        }
    }

    /// The signals sent when a command is applied to `old`: that nothing can
    /// be redone, if something could; that something can be undone, if
    /// nothing could; that the target is not saved, if it was.
    pub open spec fn apply_signals(old: &Self) -> Seq<Signal> {
        sent(old.spec_can_redo(), Signal::Redo(false))
            + sent(!old.spec_can_undo(), Signal::Undo(true))
            + sent(old.spec_is_saved(), Signal::Saved(false))
    }

    /// `new` is `old` after `undo`, which succeeded if `ok` holds. With
    /// nothing to undo nothing changes. Otherwise only the command before
    /// the current position may have changed, and on success the position
    /// moved back by one.
    pub open spec fn undo_step(old: &Self, new: &Self, ok: bool) -> bool {
        let cur = old.spec_current() as int;
        &&& new.inv()
        &&& new.same_frame(old)
        &&& !old.spec_can_undo() ==> {
            &&& ok
            &&& new.entries() == old.entries()
            &&& new.spec_current() == 0
            &&& new.view_target() == old.view_target()
        }
        &&& old.spec_can_undo() ==> {
            &&& same_outside(old.entries(), new.entries(), cur - 1, cur)
            &&& new.spec_current() == (if ok { cur - 1 } else { cur })
        }
        &&& ok && old.spec_can_undo() ==> new.signals() == old.told(
            sent(cur == old.spec_len(), Signal::Redo(true))
            + sent(cur == 1, Signal::Undo(false))
            + sent(old.spec_is_saved() != new.spec_is_saved(), Signal::Saved(new.spec_is_saved())))
        &&& !(ok && old.spec_can_undo()) ==> new.signals() == old.signals() && new.view_slot() == old.view_slot()
    }

    /// `new` is `old` after `redo`, which succeeded if `ok` holds. With
    /// nothing to redo nothing changes. Otherwise only the command at the
    /// current position may have changed, and on success the position moved
    /// forward by one.
    pub open spec fn redo_step(old: &Self, new: &Self, ok: bool) -> bool {
        let cur = old.spec_current() as int;
        &&& new.inv()
        &&& new.same_frame(old)
        &&& !old.spec_can_redo() ==> {
            &&& ok
            &&& new.entries() == old.entries()
            &&& new.spec_current() == cur
            &&& new.view_target() == old.view_target()
        }
        &&& old.spec_can_redo() ==> {
            &&& same_outside(old.entries(), new.entries(), cur, cur + 1)
            &&& new.spec_current() == (if ok { cur + 1 } else { cur })
        }
        &&& ok && old.spec_can_redo() ==> new.signals() == old.told(
            sent(cur == old.spec_len() - 1, Signal::Redo(false))
            + sent(cur == 0, Signal::Undo(true))
            + sent(old.spec_is_saved() != new.spec_is_saved(), Signal::Saved(new.spec_is_saved())))
        &&& !(ok && old.spec_can_redo()) ==> new.signals() == old.signals() && new.view_slot() == old.view_slot()
    }

    /// `new` is what `old` becomes when a command was applied at its current
    /// position: the commands that could be redone are dropped, and the
    /// command is merged into the last one, annuls it, or is pushed.
    pub open spec fn applied(old: &Self, new: &Self) -> bool {
        ||| Self::applied_merged(old, new)
        ||| Self::applied_annulled(old, new)
        ||| Self::applied_pushed(old, new)
    }

    /// A command is offered to the last command for merging only when there
    /// is a last one and the target is not in a saved state.
    pub open spec fn may_merge(&self) -> bool {
        self.spec_current() > 0 && !self.spec_is_saved()
    }

    /// The applied command was merged into the last command, which may have
    /// changed; the commands before it stay.
    pub open spec fn applied_merged(old: &Self, new: &Self) -> bool {
        let cur = old.spec_current() as int;
        let kept = old.entries().take(cur);
        &&& old.may_merge()
        &&& new.spec_len() == cur
        &&& new.entries().take(cur - 1) == kept.take(cur - 1)
        &&& new.entries()[cur - 1].timestamp == kept[cur - 1].timestamp
        &&& new.spec_current() == cur
        &&& new.saved_at() == keep_saved(old.saved_at(), cur as nat)
    }

    /// The applied command and the last command annulled each other.
    pub open spec fn applied_annulled(old: &Self, new: &Self) -> bool {
        let cur = old.spec_current() as int;
        &&& old.may_merge()
        &&& new.entries() == old.entries().take(cur - 1)
        &&& new.spec_current() == cur - 1
        &&& new.saved_at() == keep_saved(old.saved_at(), cur as nat)
    }

    /// The applied command was pushed after the commands before the current
    /// position; when the limit was reached the oldest command was dropped.
    /// The last command, offered the new one for merging, may have changed.
    pub open spec fn applied_pushed(old: &Self, new: &Self) -> bool {
        let cur = old.spec_current() as int;
        let kept = old.entries().take(cur);
        let saved = keep_saved(old.saved_at(), cur as nat);
        let at_limit = cur == old.spec_limit();
        let base = if at_limit { kept.skip(1) } else { kept };
        &&& new.spec_len() == base.len() + 1
        &&& same_outside(base, new.entries().take(base.len() as int), base.len() - 1, base.len() as int)
        &&& !old.may_merge() ==> new.entries().take(base.len() as int) == base
        &&& new.spec_current() == (if at_limit { cur } else { cur + 1 })
        &&& new.saved_at() == (if at_limit { shift_saved(saved) } else { saved })
    }

    /// `new` is `old` after going to some position within the record, as
    /// `went_to` says.
    pub open spec fn landed(old: &Self, new: &Self, ok: bool) -> bool {
        exists|p: int| 0 <= p <= old.spec_len() && #[trigger] Self::went_to(old, new, p, ok)
    }

    /// `new` is `old` after going to position `to`, which is within the
    /// record: only the commands between the two positions were undone or
    /// redone; if all went well the record stands at `to`, otherwise
    /// somewhere between the two positions.
    pub open spec fn went_to(old: &Self, new: &Self, to: int, ok: bool) -> bool {
        let from = old.spec_current() as int;
        let lo = if to < from { to } else { from };
        let hi = if to < from { from } else { to };
        &&& new.same_frame(old)
        &&& same_outside(old.entries(), new.entries(), lo, hi)
        &&& lo <= new.spec_current() <= hi
        &&& ok ==> new.spec_current() == to
    }

}

impl<C: Command, F> Record<C, F> {
    /// Undoing a command and then redoing it brings the record back to the
    /// position it was at, with as many commands and the same saved state.
    pub proof fn law_undo_then_redo(a: &Self, b: &Self, c: &Self)
        requires
            a.inv(),
            a.spec_can_undo(),
            Self::undo_step(a, b, true),
            Self::redo_step(b, c, true),
        ensures
            c.spec_current() == a.spec_current(),
            c.spec_len() == a.spec_len(),
            c.saved_at() == a.saved_at(),
            c.spec_is_saved() == a.spec_is_saved(),
            c.entries().take(a.spec_current() - 1) == a.entries().take(a.spec_current() - 1),
            c.entries().skip(a.spec_current() as int) == a.entries().skip(a.spec_current() as int),
    {
        let k = a.spec_current() as int;
        assert(b.spec_can_redo());
        assert(c.entries().take(k - 1) =~= a.entries().take(k - 1));
        assert(c.entries().skip(k) =~= a.entries().skip(k));
    }

    /// Redoing a command and then undoing it brings the record back to the
    /// position it was at, with as many commands and the same saved state.
    pub proof fn law_redo_then_undo(a: &Self, b: &Self, c: &Self)
        requires
            a.inv(),
            a.spec_can_redo(),
            Self::redo_step(a, b, true),
            Self::undo_step(b, c, true),
        ensures
            c.spec_current() == a.spec_current(),
            c.spec_len() == a.spec_len(),
            c.saved_at() == a.saved_at(),
            c.spec_is_saved() == a.spec_is_saved(),
            c.entries().take(a.spec_current() as int) == a.entries().take(a.spec_current() as int),
            c.entries().skip(a.spec_current() + 1) == a.entries().skip(a.spec_current() + 1),
    {
        let k = a.spec_current() as int;
        assert(b.spec_can_undo());
        assert(c.entries().take(k) =~= a.entries().take(k));
        assert(c.entries().skip(k + 1) =~= a.entries().skip(k + 1));
    }

    /// After a command has been applied there is nothing to redo, and the
    /// record holds no more commands than its limit.
    pub proof fn law_apply_leaves_nothing_to_redo(a: &Self, b: &Self)
        requires
            a.inv(),
            Self::apply_step(a, b, true),
        ensures
            !b.spec_can_redo(),
            b.spec_len() <= a.spec_limit(),
    {
    }

    /// Cancelling a command that was pushed through a checkpoint gives back
    /// the commands, the position and the saved state from before it was
    /// applied, when it was offered to no command for merging and the limit
    /// was not reached.
    pub proof fn law_cancel_restores_apply(a: &Self, b: &Self, tail: Vec<Entry<C>>, c: &Self)
        requires
            a.inv(),
            !a.may_merge(),
            a.spec_current() < a.spec_limit(),
            Self::apply_step(a, b, true),
            Self::applied_pushed(a, b),
            tail@ == a.entries().skip(a.spec_current() as int),
            Self::cancel_step(b, CheckpointCommand::Apply(a.saved_at(), tail), c, true),
        ensures
            c.entries() == a.entries(),
            c.spec_current() == a.spec_current(),
            c.saved_at() == a.saved_at(),
    {
        let k = a.spec_current() as int;
        let mid = choose|mid: Self| #[trigger] Self::undo_step(b, &mid, true)
            && Self::restored(&mid, a.saved_at(), tail@, c);
        assert(b.entries().take(k) =~= a.entries().take(k));
        assert(mid.spec_current() == k);
        assert(mid.entries().drop_last() =~= a.entries().take(k));
        assert(a.entries().take(k) + tail@ =~= a.entries());
    }

    /// Returns the command at position `i`, from 0.
    pub(crate) fn entry(&self, i: usize) -> (e: &Entry<C>)
        requires
            i < self.entries().len(),
        ensures
            *e == self.entries()[i as int],
    {
        &self.entries[i]
    }

    /// Returns the saved position, if it is known.
    pub(crate) fn saved_position(&self) -> (s: Option<usize>)
        ensures
            s == self.saved_at(),
    {
        self.saved
    }

    /// Returns whether the saved position is known.
    pub(crate) fn is_saved_somewhere(&self) -> (b: bool)
        ensures
            b == self.saved_at() is Some,
    {
        self.saved.is_some()
    }

    /// Sets the saved position, without telling the slot.
    pub(crate) fn replace_saved(&mut self, saved: Option<usize>)
        requires
            old(self).inv(),
        ensures
            final(self).inv(),
            final(self).saved_at() == saved,
            final(self).entries() == old(self).entries(),
            final(self).spec_current() == old(self).spec_current(),
            final(self).spec_limit() == old(self).spec_limit(),
            final(self).view_target() == old(self).view_target(),
            final(self).view_slot() == old(self).view_slot(),
    {
        self.saved = saved;
    }

    /// Cuts off and returns the commands after the current position.
    pub(crate) fn split_tail(&mut self) -> (tail: Vec<Entry<C>>)
        requires
            old(self).inv(),
        ensures
            final(self).inv(),
            final(self).entries() == old(self).entries().take(old(self).spec_current() as int),
            tail@ == old(self).entries().skip(old(self).spec_current() as int),
            final(self).spec_current() == old(self).spec_current(),
            final(self).spec_limit() == old(self).spec_limit(),
            final(self).saved_at() == old(self).saved_at(),
            final(self).view_target() == old(self).view_target(),
            final(self).view_slot() == old(self).view_slot(),
    {
        self.entries.split_off(self.current)
    }

    /// Puts `more` after the commands of the record, if they fit within the
    /// limit; returns whether they did.
    pub(crate) fn extend_entries(&mut self, more: &mut Vec<Entry<C>>) -> (fits: bool)
        requires
            old(self).inv(),
        ensures
            final(self).inv(),
            fits == (old(self).spec_len() + old(more)@.len() <= old(self).spec_limit()),
            fits ==> final(self).entries() == old(self).entries() + old(more)@,
            !fits ==> final(self).entries() == old(self).entries(),
            final(self).spec_current() == old(self).spec_current(),
            final(self).spec_limit() == old(self).spec_limit(),
            final(self).saved_at() == old(self).saved_at(),
            final(self).view_target() == old(self).view_target(),
            final(self).view_slot() == old(self).view_slot(),
    {
        if more.len() <= self.limit - self.entries.len() {
            self.entries.append(more);
            true
        } else {
            false
        }
    }

    /// Drops the last command, if it is not applied; returns whether it was dropped.
    pub(crate) fn pop_unapplied(&mut self) -> (popped: bool)
        requires
            old(self).inv(),
        ensures
            final(self).inv(),
            popped == (old(self).spec_current() < old(self).spec_len()),
            popped ==> final(self).entries() == old(self).entries().drop_last(),
            !popped ==> final(self).entries() == old(self).entries(),
            final(self).spec_current() == old(self).spec_current(),
            final(self).spec_limit() == old(self).spec_limit(),
            final(self).saved_at() == old(self).saved_at(),
            final(self).view_target() == old(self).view_target(),
            final(self).view_slot() == old(self).view_slot(),
    {
        if self.current < self.entries.len() {
            self.entries.pop();
            true
        } else {
            false
        }
    }
}

impl<C: Command, F: FnMut(Signal)> Record<C, F> {
    /// Sends `signal` to the slot, if one is connected.
    pub(crate) fn emit(&mut self, signal: Signal)
        requires
            old(self).inv(),
        ensures
            final(self).inv(),
            final(self).entries() == old(self).entries(),
            final(self).spec_current() == old(self).spec_current(),
            final(self).same_frame(old(self)),
            final(self).view_target() == old(self).view_target(),
            final(self).signals() == old(self).told(seq![signal]),
    {
        self.slot.emit(signal);
    }
}

impl<C: Command, F: FnMut(Signal)> Record<C, F> {
    /// Marks the target as currently being in a saved or unsaved state.
    pub fn set_saved(&mut self, saved: bool)
        requires
            old(self).inv(),
        ensures
            final(self).inv(),
            final(self).saved_at() == (if saved { Some(old(self).spec_current()) } else { None }),
            final(self).spec_is_saved() == saved,
            final(self).entries() == old(self).entries(),
            final(self).spec_current() == old(self).spec_current(),
            final(self).spec_limit() == old(self).spec_limit(),
            final(self).connected() == old(self).connected(),
            final(self).view_target() == old(self).view_target(),
            final(self).signals() == old(self).told(
                sent(saved && !old(self).spec_is_saved(), Signal::Saved(true))
                + sent(!saved && old(self).spec_is_saved(), Signal::Saved(false))),
    {
        let was_saved = self.is_saved();
        if saved {
            self.saved = Some(self.current);
            self.slot.emit_if(!was_saved, Signal::Saved(true));
        } else {
            self.saved = None;
            self.slot.emit_if(was_saved, Signal::Saved(false));
        }
    }

    /// Removes all commands from the record without undoing them.
    pub fn clear(&mut self)
        requires
            old(self).inv(),
        ensures
            final(self).inv(),
            final(self).entries() == Seq::<Entry<C>>::empty(),
            final(self).spec_current() == 0,
            final(self).saved_at() == (if old(self).spec_is_saved() { Some(0usize) } else { None }),
            final(self).spec_limit() == old(self).spec_limit(),
            final(self).connected() == old(self).connected(),
            final(self).view_target() == old(self).view_target(),
            final(self).signals() == old(self).told(
                sent(old(self).spec_can_undo(), Signal::Undo(false))
                + sent(old(self).spec_can_redo(), Signal::Redo(false))),
    {
        let could_undo = self.can_undo();
        let could_redo = self.can_redo();
        let was_saved = self.is_saved();
        self.entries.clear();
        self.saved = if was_saved { Some(0) } else { None };
        self.current = 0;
        self.slot.emit_if(could_undo, Signal::Undo(false));
        self.slot.emit_if(could_redo, Signal::Redo(false));
    }

    /// Pushes the command on top of the record and executes its `apply` method.
    ///
    /// # Errors
    /// If an error occurs when executing `apply` the error is returned,
    /// and the commands of the record stay as they were.
    pub fn apply(&mut self, command: C) -> (r: Result<C>)
        requires
            old(self).inv(),
        ensures
            Self::apply_step(old(self), final(self), r is Ok),
    {
        match self.apply_entry(command) {
            Ok(_) => Ok(()),
            Err(e) => Err(e),
        }
    }

    /// Applies `command`, then records it; returns whether it was merged or
    /// annulled, and the commands that could be redone before, which are cut off.
    pub(crate) fn apply_entry(&mut self, command: C) -> (r: core::result::Result<(bool, Vec<Entry<C>>), C::Error>)
        requires
            old(self).inv(),
        ensures
            final(self).inv(),
            final(self).spec_limit() == old(self).spec_limit(),
            final(self).connected() == old(self).connected(),
            r is Err ==> {
                &&& final(self).entries() == old(self).entries()
                &&& final(self).spec_current() == old(self).spec_current()
                &&& final(self).saved_at() == old(self).saved_at()
            },
            r matches Ok((merged, tail)) ==> {
                &&& tail@ == old(self).entries().skip(old(self).spec_current() as int)
                &&& merged ==> Self::applied_merged(old(self), final(self)) || Self::applied_annulled(old(self), final(self))
                &&& !merged ==> Self::applied_pushed(old(self), final(self))
            },
            r is Ok ==> final(self).signals() == old(self).told(Self::apply_signals(old(self))),
            r is Err ==> final(self).signals() == old(self).signals() && final(self).view_slot() == old(self).view_slot(),
    {
        let mut command = command;
        let applied = self.apply_on_target(&mut command);
        self.record_applied(command, applied)
    }

    /// Carries out `command`'s `apply` on the target and returns its
    /// outcome; nothing but the target changes.
    pub(crate) fn apply_on_target(&mut self, command: &mut C) -> (applied: core::result::Result<(), C::Error>)
        requires
            old(self).inv(),
        ensures
            final(self).inv(),
            final(self).entries() == old(self).entries(),
            final(self).spec_current() == old(self).spec_current(),
            final(self).same_frame(old(self)),
            final(self).view_slot() == old(self).view_slot(),
            final(self).signals() == old(self).signals(),
    {
        command.apply(&mut self.target)
    }

    /// Records `command`, whose `apply` was carried out on the target with
    /// the outcome `applied`. On failure the error is handed back and nothing
    /// changes; on success the commands that could be redone are cut off and
    /// the command is merged into the last one, annuls it, or is pushed.
    /// Returns whether it was merged or annulled, and the commands cut off.
    pub fn record_applied(&mut self, command: C, applied: core::result::Result<(), C::Error>)
        -> (r: core::result::Result<(bool, Vec<Entry<C>>), C::Error>)
        requires
            old(self).inv(),
        ensures
            final(self).inv(),
            final(self).spec_limit() == old(self).spec_limit(),
            final(self).connected() == old(self).connected(),
            r is Err ==> {
                &&& final(self).entries() == old(self).entries()
                &&& final(self).spec_current() == old(self).spec_current()
                &&& final(self).saved_at() == old(self).saved_at()
            },
            r matches Ok((merged, tail)) ==> {
                &&& tail@ == old(self).entries().skip(old(self).spec_current() as int)
                &&& merged ==> Self::applied_merged(old(self), final(self)) || Self::applied_annulled(old(self), final(self))
                &&& !merged ==> Self::applied_pushed(old(self), final(self))
            },
            applied matches Err(e) ==> r == core::result::Result::<(bool, Vec<Entry<C>>), C::Error>::Err(e)
                && *final(self) == *old(self),
            applied is Ok ==> r is Ok,
            applied is Ok ==> final(self).signals() == old(self).told(Self::apply_signals(old(self))),
            applied is Ok && !old(self).may_merge() ==> final(self).entries().last().command == command,
            final(self).view_target() == old(self).view_target(),
    {
        match applied {
            Ok(()) => {},
            Err(e) => return Err(e),
        }
        let current = self.current;
        let could_undo = self.can_undo();
        let could_redo = self.can_redo();
        let was_saved = self.is_saved();
        let ghost kept = self.entries@.take(current as int);
        // Cut off the commands that could be redone.
        let tail = self.entries.split_off(current);
        assert(self.entries@ == kept);
        // The saved state is lost if it was cut off.
        self.saved = match self.saved {
            Some(saved) => if saved <= current { Some(saved) } else { None },
            None => None,
        };
        let ghost saved = self.saved;
        // Try to merge commands unless the target is in a saved state.
        let merged = if current > 0 && !was_saved {
            self.entries[current - 1].command.merge(command)
        } else {
            Merge::No(command)
        };
        let ghost mid = *self;
        assert(same_outside(kept, self.entries@, current - 1, current as int));
        assert(!old(self).may_merge() ==> self.entries@ == kept);
        let ghost outcome = merged;
        let merged_or_annulled = self.settle_merge(merged);
        proof {
            if outcome is Yes {
                assert(self.entries@.take(current - 1) =~= kept.take(current - 1));
                assert(self.entries()[current - 1].timestamp == kept[current - 1].timestamp);
            }
            if outcome is Annul {
                assert(self.entries@ =~= kept.take(current - 1));
                assert(kept.take(current - 1) =~= old(self).entries().take(current - 1));
            }
            if !merged_or_annulled {
                let pushed_onto = self.entries@.drop_last();
                assert(self.entries@.take(pushed_onto.len() as int) =~= pushed_onto);
                if current == self.limit {
                    assert(same_outside(kept.skip(1), pushed_onto, current - 2, current - 1));
                }
            }
        }
        assert(tail@ == old(self).entries().skip(old(self).spec_current() as int));
        assert(merged_or_annulled ==> Self::applied_merged(old(self), self) || Self::applied_annulled(old(self), self));
        assert(!merged_or_annulled ==> Self::applied_pushed(old(self), self));
        self.slot.emit_if(could_redo, Signal::Redo(false));
        self.slot.emit_if(!could_undo, Signal::Undo(true));
        self.slot.emit_if(was_saved, Signal::Saved(false));
        Ok((merged_or_annulled, tail))
    }

    /// Finishes recording a command that was applied at the end of the
    /// record, given what the last command answered when the new one was
    /// offered for merging (`Merge::No` with the command itself where it was
    /// not offered). Returns whether the command was merged or annulled.
    ///
    /// - `Yes`: the last command absorbed the new one; nothing else changes.
    /// - `Annul`: the two cancel out; the last command is dropped and the
    ///   position moves back by one.
    /// - `No(c)`: `c` is pushed; at the limit the oldest command is dropped and
    ///   the saved position moves down by one, otherwise the position moves
    ///   forward by one.
    pub fn settle_merge(&mut self, outcome: Merge<C>) -> (merged: bool)
        requires
            old(self).inv(),
            old(self).spec_current() == old(self).spec_len(),
            !(outcome is No) ==> old(self).spec_current() > 0,
        ensures
            final(self).inv(),
            final(self).spec_limit() == old(self).spec_limit(),
            final(self).view_target() == old(self).view_target(),
            final(self).view_slot() == old(self).view_slot(),
            final(self).signals() == old(self).signals(),
            merged == !(outcome is No),
            final(self).spec_current() == final(self).spec_len(),
            outcome is Yes ==> *final(self) == *old(self),
            outcome is Annul ==> {
                &&& final(self).entries() == old(self).entries().drop_last()
                &&& final(self).spec_current() == old(self).spec_current() - 1
                &&& final(self).saved_at() == old(self).saved_at()
            },
            outcome matches Merge::No(c) ==> {
                &&& final(self).entries().last().command == c
                &&& old(self).spec_current() == old(self).spec_limit() ==> {
                    &&& final(self).entries().drop_last() == old(self).entries().skip(1)
                    &&& final(self).spec_current() == old(self).spec_current()
                    &&& final(self).saved_at() == shift_saved(old(self).saved_at())
                }
                &&& old(self).spec_current() < old(self).spec_limit() ==> {
                    &&& final(self).entries().drop_last() == old(self).entries()
                    &&& final(self).spec_current() == old(self).spec_current() + 1
                    &&& final(self).saved_at() == old(self).saved_at()
                }
            },
    {
        let current = self.current;
        match outcome {
            Merge::Yes => true,
            Merge::Annul => {
                self.entries.pop();
                self.current = current - 1;
                true
            },
            Merge::No(command) => {
                if self.limit == current {
                    // The limit is reached: drop the oldest command.
                    let ghost before_drop = self.entries@;
                    self.entries.remove(0);
                    assert(self.entries@ =~= before_drop.skip(1));
                    self.saved = match self.saved {
                        Some(saved) => if saved >= 1 { Some(saved - 1) } else { None },
                        None => None,
                    };
                } else {
                    self.current = current + 1;
                }
                let ghost pushed_onto = self.entries@;
                self.entries.push(Entry::new(command));
                assert(self.entries@.drop_last() =~= pushed_onto);
                false
            },
        }
    }

    /// Calls the `undo` method for the active command and sets the previous
    /// one as the new active one. Does nothing if there is nothing to undo.
    ///
    /// # Errors
    /// If an error occurs when executing `undo` the error is returned and
    /// the position stays as it was.
    pub fn undo(&mut self) -> (r: Result<C>)
        requires
            old(self).inv(),
        ensures
            Self::undo_step(old(self), final(self), r is Ok),
    {
        if !self.can_undo() {
            return Ok(());
        }
        let outcome = self.undo_on_target();
        self.record_undone(outcome)
    }

    /// Carries out the `undo` of the command before the current position on
    /// the target and returns its outcome; nothing but that command and the
    /// target changes.
    pub(crate) fn undo_on_target(&mut self) -> (outcome: core::result::Result<(), C::Error>)
        requires
            old(self).inv(),
            old(self).spec_can_undo(),
        ensures
            final(self).inv(),
            same_outside(old(self).entries(), final(self).entries(),
                old(self).spec_current() - 1, old(self).spec_current() as int),
            final(self).spec_current() == old(self).spec_current(),
            final(self).same_frame(old(self)),
            final(self).view_slot() == old(self).view_slot(),
            final(self).signals() == old(self).signals(),
    {
        let k = self.current;
        self.entries[k - 1].command.undo(&mut self.target)
    }

    /// Finishes an undo whose command's `undo` had the outcome `outcome`. On
    /// failure the error is handed back and nothing changes; on success the
    /// position moves back by one and the slot is told what changed.
    pub fn record_undone(&mut self, outcome: core::result::Result<(), C::Error>) -> (r: Result<C>)
        requires
            old(self).inv(),
            old(self).spec_can_undo(),
        ensures
            outcome matches Err(e) ==> r == Result::<C>::Err(e) && *final(self) == *old(self),
            outcome is Ok ==> {
                &&& r is Ok
                &&& final(self).inv()
                &&& final(self).entries() == old(self).entries()
                &&& final(self).spec_current() == old(self).spec_current() - 1
                &&& final(self).same_frame(old(self))
                &&& final(self).view_target() == old(self).view_target()
                &&& final(self).signals() == old(self).told(
                    sent(old(self).spec_current() == old(self).spec_len(), Signal::Redo(true))
                    + sent(old(self).spec_current() == 1, Signal::Undo(false))
                    + sent(old(self).spec_is_saved() != final(self).spec_is_saved(), Signal::Saved(final(self).spec_is_saved())))
            },
    {
        match outcome {
            Ok(()) => {},
            Err(e) => return Err(e),
        }
        let was_saved = self.is_saved();
        let old = self.current;
        self.current = old - 1;
        let len = self.entries.len();
        let is_saved = self.is_saved();
        self.slot.emit_if(old == len, Signal::Redo(true));
        self.slot.emit_if(old == 1, Signal::Undo(false));
        self.slot.emit_if(was_saved != is_saved, Signal::Saved(is_saved));
        Ok(())
    }

    /// Calls the `redo` method for the active command and sets the next one
    /// as the new active one. Does nothing if there is nothing to redo.
    ///
    /// # Errors
    /// If an error occurs when executing `redo` the error is returned and
    /// the position stays as it was.
    pub fn redo(&mut self) -> (r: Result<C>)
        requires
            old(self).inv(),
        ensures
            Self::redo_step(old(self), final(self), r is Ok),
    {
        if !self.can_redo() {
            return Ok(());
        }
        let outcome = self.redo_on_target();
        self.record_redone(outcome)
    }

    /// Carries out the `redo` of the command at the current position on the
    /// target and returns its outcome; nothing but that command and the
    /// target changes.
    pub(crate) fn redo_on_target(&mut self) -> (outcome: core::result::Result<(), C::Error>)
        requires
            old(self).inv(),
            old(self).spec_can_redo(),
        ensures
            final(self).inv(),
            same_outside(old(self).entries(), final(self).entries(),
                old(self).spec_current() as int, old(self).spec_current() + 1),
            final(self).spec_current() == old(self).spec_current(),
            final(self).same_frame(old(self)),
            final(self).view_slot() == old(self).view_slot(),
            final(self).signals() == old(self).signals(),
    {
        let k = self.current;
        self.entries[k].command.redo(&mut self.target)
    }

    /// Finishes a redo whose command's `redo` had the outcome `outcome`. On
    /// failure the error is handed back and nothing changes; on success the
    /// position moves forward by one and the slot is told what changed.
    pub fn record_redone(&mut self, outcome: core::result::Result<(), C::Error>) -> (r: Result<C>)
        requires
            old(self).inv(),
            old(self).spec_can_redo(),
        ensures
            outcome matches Err(e) ==> r == Result::<C>::Err(e) && *final(self) == *old(self),
            outcome is Ok ==> {
                &&& r is Ok
                &&& final(self).inv()
                &&& final(self).entries() == old(self).entries()
                &&& final(self).spec_current() == old(self).spec_current() + 1
                &&& final(self).same_frame(old(self))
                &&& final(self).view_target() == old(self).view_target()
                &&& final(self).signals() == old(self).told(
                    sent(old(self).spec_current() == old(self).spec_len() - 1, Signal::Redo(false))
                    + sent(old(self).spec_current() == 0, Signal::Undo(true))
                    + sent(old(self).spec_is_saved() != final(self).spec_is_saved(), Signal::Saved(final(self).spec_is_saved())))
            },
    {
        match outcome {
            Ok(()) => {},
            Err(e) => return Err(e),
        }
        let was_saved = self.is_saved();
        let old = self.current;
        self.current = old + 1;
        let len = self.entries.len();
        let is_saved = self.is_saved();
        self.slot.emit_if(old == len - 1, Signal::Redo(false));
        self.slot.emit_if(old == 0, Signal::Undo(true));
        self.slot.emit_if(was_saved != is_saved, Signal::Saved(is_saved));
        Ok(())
    }
}

/// The number of leading entries stamped before `to`.
pub open spec fn count_before<C>(entries: Seq<Entry<C>>, to: Timestamp) -> nat
    decreases entries.len(),
{
    if entries.len() == 0 {
        0
    } else if entries[0].timestamp.before(to) {
        1 + count_before(entries.skip(1), to)
    } else {
        0
    }
}

/// Where the entries stamped before `to` end, if they are the first `k`.
pub proof fn lemma_count_before<C>(entries: Seq<Entry<C>>, to: Timestamp, k: int)
    requires
        0 <= k <= entries.len(),
        forall|j: int| 0 <= j < k ==> #[trigger] entries[j].timestamp.before(to),
        forall|j: int| k <= j < entries.len() ==> !#[trigger] entries[j].timestamp.before(to),
    ensures
        count_before(entries, to) == k,
    decreases k,
{
    if k > 0 {
        let rest = entries.skip(1);
        assert forall|j: int| 0 <= j < k - 1 implies #[trigger] rest[j].timestamp.before(to) by {
            assert(rest[j] == entries[j + 1]);
        }
        assert forall|j: int| k - 1 <= j < rest.len() implies !#[trigger] rest[j].timestamp.before(to) by {
            assert(rest[j] == entries[j + 1]);
        }
        lemma_count_before(rest, to, k - 1);
    }
}

impl<C: Command, F: FnMut(Signal)> Record<C, F> {
    /// Repeatedly calls `undo` or `redo` until the command at `current` is reached.
    ///
    /// Returns `None` if `current` is beyond the record.
    ///
    /// # Errors
    /// If an error occurs when executing `undo` or `redo` the error is
    /// returned and the record stops where the error occurred.
    pub fn go_to(&mut self, current: usize) -> (r: Option<Result<C>>)
        requires
            old(self).inv(),
        ensures
            final(self).inv(),
            current > old(self).spec_len() ==> {
                &&& r is None
                &&& final(self).entries() == old(self).entries()
                &&& final(self).spec_current() == old(self).spec_current()
                &&& final(self).same_frame(old(self))
                &&& final(self).view_target() == old(self).view_target()
            },
            current <= old(self).spec_len() ==> {
                &&& r is Some
                &&& Self::went_to(old(self), final(self), current as int, r == Some(Result::<C>::Ok(())))
            },
            current == old(self).spec_current() ==> r == Some(Result::<C>::Ok(())),
            r == Some(Result::<C>::Ok(())) ==> final(self).signals() == old(self).told(Self::moved(old(self), final(self))),
            r != Some(Result::<C>::Ok(())) ==> final(self).signals() == old(self).signals()
                && final(self).view_slot() == old(self).view_slot(),
    {
        if current > self.entries.len() {
            return None;
        }
        let could_undo = self.can_undo();
        let could_redo = self.can_redo();
        let was_saved = self.is_saved();
        let start = self.current;
        // Take the slot away so that it is not called on each step.
        let f = self.slot.f.take();
        let forward = current > self.current;
        while self.current != current
            invariant
                self.inv(),
                self.spec_len() == old(self).spec_len(),
                self.spec_limit() == old(self).spec_limit(),
                self.saved_at() == old(self).saved_at(),
                !self.connected(),
                f == old(self).view_slot(),
                self.signals() == old(self).signals(),
                current <= self.spec_len(),
                start == old(self).spec_current(),
                forward == (current > start),
                forward ==> start <= self.spec_current() <= current,
                !forward ==> current <= self.spec_current() <= start,
                forward ==> same_outside(old(self).entries(), self.entries(), start as int, current as int),
                !forward ==> same_outside(old(self).entries(), self.entries(), current as int, start as int),
            decreases
                if forward { current - self.spec_current() } else { self.spec_current() - current },
        {
            let ghost before_step = *self;
            let step = if forward { self.redo() } else { self.undo() };
            if let Err(err) = step {
                assert(self.spec_current() == before_step.spec_current());
                assert(self.entries().len() == old(self).entries().len());
                self.slot.f = f;
                assert(self.same_frame(old(self)));
                return Some(Err(err));
            }
        }
        // Put the slot back.
        self.slot.f = f;
        let can_undo = self.can_undo();
        let can_redo = self.can_redo();
        let is_saved = self.is_saved();
        self.slot.emit_if(could_undo != can_undo, Signal::Undo(can_undo));
        self.slot.emit_if(could_redo != can_redo, Signal::Redo(can_redo));
        self.slot.emit_if(was_saved != is_saved, Signal::Saved(is_saved));
        Some(Ok(()))
    }

    /// Revert the changes done to the target since the saved state.
    ///
    /// Returns `None` if no saved state is known.
    pub fn revert(&mut self) -> (r: Option<Result<C>>)
        requires
            old(self).inv(),
        ensures
            final(self).inv(),
            old(self).saved_at() is None || old(self).saved_at().unwrap() > old(self).spec_len() ==> {
                &&& r is None
                &&& final(self).entries() == old(self).entries()
                &&& final(self).spec_current() == old(self).spec_current()
                &&& final(self).same_frame(old(self))
                &&& final(self).view_target() == old(self).view_target()
            },
            old(self).saved_at() matches Some(s) ==> (s <= old(self).spec_len() ==> {
                &&& r is Some
                &&& Self::went_to(old(self), final(self), s as int, r == Some(Result::<C>::Ok(())))
            }),
            r == Some(Result::<C>::Ok(())) ==> final(self).spec_is_saved(),
            r == Some(Result::<C>::Ok(())) ==> final(self).signals() == old(self).told(Self::moved(old(self), final(self))),
            r != Some(Result::<C>::Ok(())) ==> final(self).signals() == old(self).signals()
                && final(self).view_slot() == old(self).view_slot(),
    {
        match self.saved {
            Some(saved) => self.go_to(saved),
            None => None,
        }
    }

    /// Goes back or forward in the record to the point in time `to`: the
    /// commands stamped before `to` are applied, the rest are not.
    ///
    /// Returns `None` if the record is empty. The position is found by binary
    /// search, which finds it when the timestamps are in chronological order.
    pub fn time_travel(&mut self, to: &Timestamp) -> (r: Option<Result<C>>)
        requires
            old(self).inv(),
        ensures
            final(self).inv(),
            old(self).spec_len() == 0 ==> {
                &&& r is None
                &&& final(self).entries() == old(self).entries()
                &&& final(self).spec_current() == old(self).spec_current()
                &&& final(self).same_frame(old(self))
                &&& final(self).view_target() == old(self).view_target()
            },
            old(self).spec_len() > 0 ==> {
                &&& r is Some
                &&& final(self).same_frame(old(self))
                &&& final(self).spec_len() == old(self).spec_len()
                &&& chronological(old(self).entries()) ==> Self::went_to(old(self), final(self),
                        count_before(old(self).entries(), *to) as int, r == Some(Result::<C>::Ok(())))
                &&& Self::landed(old(self), final(self), r == Some(Result::<C>::Ok(())))
            },
            r == Some(Result::<C>::Ok(())) ==> final(self).signals() == old(self).told(Self::moved(old(self), final(self))),
            r != Some(Result::<C>::Ok(())) ==> final(self).signals() == old(self).signals()
                && final(self).view_slot() == old(self).view_slot(),
    {
        let len = self.entries.len();
        if len == 0 {
            return None;
        }
        // Binary search for the first entry that is not before `to`.
        let mut lo: usize = 0;
        let mut hi: usize = len;
        while lo < hi
            invariant
                0 <= lo <= hi <= len,
                len == self.entries@.len(),
                chronological(self.entries@) ==> forall|j: int| 0 <= j < lo ==> #[trigger] self.entries@[j].timestamp.before(*to),
                chronological(self.entries@) ==> forall|j: int| hi <= j < len ==> !#[trigger] self.entries@[j].timestamp.before(*to),
            decreases hi - lo,
        {
            let mid = lo + (hi - lo) / 2;
            if self.entries[mid].timestamp.is_before(to) {
                proof {
                    if chronological(self.entries@) {
                        assert forall|j: int| 0 <= j < mid + 1 implies #[trigger] self.entries@[j].timestamp.before(*to) by {
                            assert(!self.entries@[mid as int].timestamp.before(self.entries@[j].timestamp));
                        }
                    }
                }
                lo = mid + 1;
            } else {
                proof {
                    if chronological(self.entries@) {
                        assert forall|j: int| mid <= j < len implies !#[trigger] self.entries@[j].timestamp.before(*to) by {
                            assert(!self.entries@[j].timestamp.before(self.entries@[mid as int].timestamp));
                        }
                    }
                }
                hi = mid;
            }
        }
        proof {
            if chronological(self.entries@) {
                lemma_count_before(self.entries@, *to, lo as int);
            }
        }
        let r = self.go_to(lo);
        assert(Self::went_to(old(self), self, lo as int, r == Some(Result::<C>::Ok(()))));
        r
    }
}

/// Builder for a record.
#[derive(Clone, Debug, Hash, Ord, PartialOrd, Eq, PartialEq, Structural)]
pub struct Builder {
    capacity: usize,
    // One less than the limit, which is never zero.
    limit_less_one: usize,
    saved: bool,
}

impl Builder {
    /// The capacity the record is built with.
    pub closed spec fn spec_capacity(&self) -> usize {
        self.capacity
    }

    /// The limit the record is built with.
    pub closed spec fn spec_limit(&self) -> usize {
        if self.limit_less_one < usize::MAX { (self.limit_less_one + 1) as usize } else { usize::MAX }
    }

    /// Whether the record is built in a saved state.
    pub closed spec fn spec_saved(&self) -> bool {
        self.saved
    }

    /// Returns the capacity the record is built with.
    pub fn get_capacity(&self) -> (c: usize)
        ensures
            c == self.spec_capacity(),
    {
        self.capacity
    }

    /// Returns the limit the record is built with.
    pub fn get_limit(&self) -> (l: usize)
        ensures
            l == self.spec_limit(),
            l > 0,
    {
        if self.limit_less_one < usize::MAX { self.limit_less_one + 1 } else { usize::MAX }
    }

    /// Returns whether the record is built in a saved state.
    pub fn get_saved(&self) -> (b: bool)
        ensures
            b == self.spec_saved(),
    {
        self.saved
    }

    /// Returns a builder for a record.
    pub fn new() -> (b: Builder)
        ensures
            b.spec_limit() > 0,
            b.spec_capacity() == 0,
            b.spec_limit() == usize::MAX,
            b.spec_saved(),
    {
        Builder { capacity: 0, limit_less_one: usize::MAX - 1, saved: true }
    }

    /// Sets the capacity for the record.
    pub fn capacity(&mut self, capacity: usize) -> (b: &mut Builder)
        ensures
            b.spec_capacity() == capacity,
            b.spec_limit() == old(self).spec_limit(),
            b.spec_saved() == old(self).spec_saved(),
            *final(self) == *final(b),
    {
        self.capacity = capacity;
        self
    }

    /// Sets the `limit` of the record.
    ///
    /// The limit can not be `0`.
    pub fn limit(&mut self, limit: usize) -> (b: &mut Builder)
        requires
            limit != 0,
        ensures
            b.spec_capacity() == old(self).spec_capacity(),
            b.spec_limit() == limit,
            b.spec_saved() == old(self).spec_saved(),
            *final(self) == *final(b),
    {
        self.limit_less_one = limit - 1;
        self
    }

    /// Sets if the target is initially in a saved state.
    /// By default the target is in a saved state.
    pub fn saved(&mut self, saved: bool) -> (b: &mut Builder)
        ensures
            b.spec_capacity() == old(self).spec_capacity(),
            b.spec_limit() == old(self).spec_limit(),
            b.spec_saved() == saved,
            *final(self) == *final(b),
    {
        self.saved = saved;
        self
    }

    /// Builds the record.
    pub fn build<C: Command, F>(&self, target: C::Target) -> (record: Record<C, F>)
        ensures
            record.inv(),
            record.entries() == Seq::<Entry<C>>::empty(),
            record.spec_current() == 0,
            record.spec_limit() == self.spec_limit(),
            record.saved_at() == (if self.spec_saved() { Some(0usize) } else { None }),
            record.view_target() == target,
            !record.connected(),
    {
        Record {
            entries: Vec::with_capacity(self.capacity),
            target,
            current: 0,
            limit: if self.limit_less_one < usize::MAX { self.limit_less_one + 1 } else { usize::MAX },
            saved: if self.saved { Some(0) } else { None },
            slot: Slot::new(),
        }
    }
}

impl Builder {
    /// Builds the record with the slot.
    pub fn build_with<C: Command, F: FnMut(Signal)>(&self, target: C::Target, slot: F) -> (record: Record<C, F>)
        ensures
            record.inv(),
            record.entries() == Seq::<Entry<C>>::empty(),
            record.spec_current() == 0,
            record.spec_limit() == self.spec_limit(),
            record.saved_at() == (if self.spec_saved() { Some(0usize) } else { None }),
            record.view_target() == target,
            record.view_slot() == Some(slot),
    {
        Record {
            entries: Vec::with_capacity(self.capacity),
            target,
            current: 0,
            limit: if self.limit_less_one < usize::MAX { self.limit_less_one + 1 } else { usize::MAX },
            saved: if self.saved { Some(0) } else { None },
            slot: Slot::with(slot),
        }
    }

    /// Creates the record with a default `target`.
    pub fn default<C: Command, F>(&self) -> (record: Record<C, F>)
        where C::Target: Default,
        ensures
            record.inv(),
            record.entries() == Seq::<Entry<C>>::empty(),
            record.spec_current() == 0,
            record.spec_limit() == self.spec_limit(),
            record.saved_at() == (if self.spec_saved() { Some(0usize) } else { None }),
            !record.connected(),
    {
        self.build(C::Target::default())
    }

    /// Creates the record with a default `target` and with the slot.
    pub fn default_with<C: Command, F: FnMut(Signal)>(&self, slot: F) -> (record: Record<C, F>)
        where C::Target: Default,
        ensures
            record.inv(),
            record.entries() == Seq::<Entry<C>>::empty(),
            record.spec_current() == 0,
            record.spec_limit() == self.spec_limit(),
            record.saved_at() == (if self.spec_saved() { Some(0usize) } else { None }),
            record.view_slot() == Some(slot),
    {
        self.build_with(C::Target::default(), slot)
    }
}

impl core::default::Default for Builder {
    fn default() -> Self {
        Builder::new()
    }
}

impl<C: Command, F> Default for Record<C, F>
    where C::Target: Default,
{
    fn default() -> (record: Record<C, F>)
        ensures
            record.inv(),
            record.entries() == Seq::<Entry<C>>::empty(),
            record.spec_current() == 0,
            record.spec_limit() == usize::MAX,
            record.saved_at() == Some(0usize),
            !record.connected(),
    {
        Record::new(C::Target::default())
    }
}

/// An action queued on a record.
pub enum QueueCommand<C> {
    /// Apply the command.
    Apply(C),
    /// Undo once.
    Undo,
    /// Redo once.
    Redo,
    /// Go to a position: a branch and the position in it (a record has one
    /// branch, and ignores the first number).
    GoTo(usize, usize),
}

impl<C: Command + ToString, F> Record<C, F> {
    /// Returns the text of the command that the next call to `undo` will
    /// undo, if there is one.
    pub fn undo_text(&self) -> (text: Option<String>)
        requires
            self.inv(),
        ensures
            text is Some <==> self.spec_can_undo(),
    {
        if self.can_undo() {
            Some(text_of(&self.entries[self.current - 1].command))
        } else {
            None
        }
    }

    /// Returns the text of the command that the next call to `redo` will
    /// redo, if there is one.
    pub fn redo_text(&self) -> (text: Option<String>)
        requires
            self.inv(),
        ensures
            text is Some <==> self.spec_can_redo(),
    {
        if self.can_redo() {
            Some(text_of(&self.entries[self.current].command))
        } else {
            None
        }
    }
}

/// `apply` actions for `commands`, in order.
pub open spec fn applies<C>(commands: Seq<C>) -> Seq<QueueCommand<C>> {
    commands.map_values(|c: C| QueueCommand::Apply(c))
}

impl<C: Command, F> Record<C, F> {
    /// `new` is `old` after `go_to(to)`, which did not fail if `ok` holds:
    /// beyond the record nothing changes; otherwise as `went_to` says.
    pub open spec fn go_to_step(old: &Self, to: usize, new: &Self, ok: bool) -> bool {
        &&& new.inv()
        &&& to > old.spec_len() ==> {
            &&& ok
            &&& new.entries() == old.entries()
            &&& new.spec_current() == old.spec_current()
            &&& new.same_frame(old)
            &&& new.view_target() == old.view_target()
        }
        &&& to <= old.spec_len() ==> Self::went_to(old, new, to as int, ok)
    }

    /// `new` is `old` after `action` was carried out, successfully if `ok`.
    pub open spec fn action_step(old: &Self, action: QueueCommand<C>, new: &Self, ok: bool) -> bool {
        match action {
            QueueCommand::Apply(_) => Self::apply_step(old, new, ok),
            QueueCommand::Undo => Self::undo_step(old, new, ok),
            QueueCommand::Redo => Self::redo_step(old, new, ok),
            QueueCommand::GoTo(_, to) => Self::go_to_step(old, to, new, ok),
        }
    }

    /// `new` is `old` after all of `actions` were carried out in order,
    /// each successfully.
    pub open spec fn runs(old: &Self, actions: Seq<QueueCommand<C>>, new: &Self) -> bool
        decreases actions.len(),
    {
        if actions.len() == 0 {
            *new == *old
        } else {
            exists|mid: Self| #[trigger] Self::action_step(old, actions[0], &mid, true)
                && Self::runs(&mid, actions.skip(1), new)
        }
    }

    /// `new` is `old` after the first actions of `actions` were carried out
    /// in order and the next one failed.
    pub open spec fn fails(old: &Self, actions: Seq<QueueCommand<C>>, new: &Self) -> bool {
        exists|k: int, mid: Self| 0 <= k < actions.len()
            && #[trigger] Self::runs(old, actions.take(k), &mid)
            && Self::action_step(&mid, actions[k], new, false)
    }

    /// Carrying out one more action extends a run.
    pub proof fn lemma_runs_push(a: &Self, actions: Seq<QueueCommand<C>>, m: &Self, x: QueueCommand<C>, b: &Self)
        requires
            Self::runs(a, actions, m),
            Self::action_step(m, x, b, true),
        ensures
            Self::runs(a, actions.push(x), b),
        decreases actions.len(),
    {
        if actions.len() == 0 {
            assert(actions.push(x).skip(1) =~= Seq::<QueueCommand<C>>::empty());
            assert(Self::runs(b, actions.push(x).skip(1), b));
            assert(actions.push(x)[0] == x);
        } else {
            let mid = choose|mid: Self| #[trigger] Self::action_step(a, actions[0], &mid, true)
                && Self::runs(&mid, actions.skip(1), m);
            Self::lemma_runs_push(&mid, actions.skip(1), m, x, b);
            assert(actions.push(x).skip(1) =~= actions.skip(1).push(x));
            assert(actions.push(x)[0] == actions[0]);
        }
    }
}

/// Wraps a record and gives it batch queue functionality.
///
/// Actions are queued and carried out on the record, in order, when the
/// queue is committed.
pub struct Queue<'a, C: Command, F> {
    /// The record the actions are for.
    pub record: &'a mut Record<C, F>,
    /// The queued actions, first first.
    pub commands: Vec<QueueCommand<C>>,
}

impl<'a, C: Command, F: FnMut(Signal)> Queue<'a, C, F> {
    /// Returns a queue on `record`.
    pub fn new(record: &'a mut Record<C, F>) -> (q: Queue<'a, C, F>)
        ensures
            *q.record == *old(record),
            *final(q.record) == *final(record),
            q.commands@ == Seq::<QueueCommand<C>>::empty(),
    {
        Queue { record, commands: Vec::new() }
    }

    /// Queues an `apply` action.
    pub fn apply(&mut self, command: C)
        ensures
            *final(self).record == *old(self).record,
            final(self).commands@ == old(self).commands@.push(QueueCommand::Apply(command)),
    {
        self.commands.push(QueueCommand::Apply(command));
    }

    /// Queues an `undo` action.
    pub fn undo(&mut self)
        ensures
            *final(self).record == *old(self).record,
            final(self).commands@ == old(self).commands@.push(QueueCommand::Undo),
    {
        self.commands.push(QueueCommand::Undo);
    }

    /// Queues a `redo` action.
    pub fn redo(&mut self)
        ensures
            *final(self).record == *old(self).record,
            final(self).commands@ == old(self).commands@.push(QueueCommand::Redo),
    {
        self.commands.push(QueueCommand::Redo);
    }

    /// Queues a `go_to` action.
    pub fn go_to(&mut self, current: usize)
        ensures
            *final(self).record == *old(self).record,
            final(self).commands@ == old(self).commands@.push(QueueCommand::GoTo(0, current)),
    {
        self.commands.push(QueueCommand::GoTo(0, current));
    }

    /// Reserves capacity for at least `additional` more actions in the queue.
    pub fn reserve(&mut self, additional: usize)
        ensures
            *final(self).record == *old(self).record,
            final(self).commands@ == old(self).commands@,
    {
        self.commands.reserve(additional);
    }

    /// Returns the capacity of the queue.
    pub fn capacity(&self) -> (c: usize)
        ensures
            c >= self.commands@.len(),
    {
        vec_capacity(&self.commands)
    }

    /// Shrinks the capacity of the queue as much as possible.
    pub fn shrink_to_fit(&mut self)
        ensures
            *final(self).record == *old(self).record,
            final(self).commands@ == old(self).commands@,
    {
        vec_shrink_to_fit(&mut self.commands);
    }

    /// Returns the number of actions in the queue.
    pub fn len(&self) -> (n: usize)
        ensures
            n == self.commands@.len(),
    {
        self.commands.len()
    }

    /// Returns `true` if the queue is empty.
    pub fn is_empty(&self) -> (b: bool)
        ensures
            b == (self.commands@.len() == 0),
    {
        self.commands.len() == 0
    }

    /// Queues an `apply` action for each of `commands`, in order.
    pub fn extend(&mut self, commands: Vec<C>)
        ensures
            *final(self).record == *old(self).record,
            final(self).commands@ == old(self).commands@ + applies(commands@),
    {
        let ghost all = commands@;
        let mut commands = reversed(commands);
        let ghost mut done: int = 0;
        assert(applies(all.take(0)) =~= Seq::<QueueCommand<C>>::empty());
        assert(self.commands@ =~= old(self).commands@ + applies(all.take(0)));
        while commands.len() > 0
            invariant
                *self.record == *old(self).record,
                commands@.reverse() =~= all.skip(done),
                commands@.len() + done == all.len(),
                0 <= done <= all.len(),
                self.commands@ == old(self).commands@ + applies(all.take(done)),
            decreases commands.len(),
        {
            let ghost rest = commands@;
            let command = commands.pop().unwrap();
            proof {
                assert(rest.reverse()[0] == rest[rest.len() - 1]);
                assert(all.skip(done)[0] == all[done]);
                assert(all.take(done + 1) =~= all.take(done).push(command));
                assert(applies(all.take(done + 1)) =~= applies(all.take(done)).push(QueueCommand::Apply(command)));
                assert(rest.reverse().skip(1) =~= commands@.reverse());
            }
            self.commands.push(QueueCommand::Apply(command));
            proof {
                done = done + 1;
            }
        }
        assert(all.take(done) =~= all);
    }

    /// Applies the queued actions in order.
    ///
    /// # Errors
    /// If an error occurs, it stops applying the actions and returns the error.
    pub fn commit(self) -> (r: Result<C>)
        requires
            old(self.record).inv(),
        ensures
            final(self.record).inv(),
            r is Ok ==> Record::runs(&*old(self.record), self.commands@, &*final(self.record)),
            r is Err ==> Record::fails(&*old(self.record), self.commands@, &*final(self.record)),
    {
        let Queue { record, commands } = self;
        let ghost start = *record;
        let ghost all = commands@;
        // Reverse the actions so that they can be taken from the back.
        let mut commands = commands;
        let mut pending: Vec<QueueCommand<C>> = Vec::new();
        while commands.len() > 0
            invariant
                all =~= commands@ + pending@.reverse(),
            decreases commands.len(),
        {
            let ghost before = commands@;
            let action = commands.pop().unwrap();
            pending.push(action);
            assert(before =~= commands@.push(action));
        }
        let ghost mut done: int = 0;
        assert(Record::runs(&start, all.take(0), &*record)) by {
            assert(all.take(0) =~= Seq::<QueueCommand<C>>::empty());
        }
        let mut outcome: Result<C> = Ok(());
        assert(all.take(all.len() as int) =~= all);
        while pending.len() > 0
            invariant_except_break
                pending@.reverse() =~= all.skip(done),
                pending@.len() + done == all.len(),
                all.take(all.len() as int) == all,
                Record::runs(&start, all.take(done), &*record),
                outcome is Ok,
            invariant
                record.inv(),
                0 <= done <= all.len(),
            ensures
                record.inv(),
                outcome is Ok ==> Record::runs(&start, all, &*record),
                outcome is Err ==> Record::fails(&start, all, &*record),
            decreases pending.len(),
        {
            let ghost before = *record;
            let ghost rest = pending@;
            let action = pending.pop().unwrap();
            assert(all.skip(done).len() == rest.len());
            assert(action == rest[rest.len() - 1]);
            assert(rest.reverse()[0] == rest[rest.len() - 1]);
            assert(all.skip(done)[0] == all[done]);
            assert(all[done] == action);
            let ghost kind = action;
            let result = match action {
                QueueCommand::Apply(command) => record.apply(command),
                QueueCommand::Undo => record.undo(),
                QueueCommand::Redo => record.redo(),
                QueueCommand::GoTo(_, to) => {
                    let r = record.go_to(to);
                    match r {
                        Some(Err(err)) => {
                            assert(Record::go_to_step(&before, to, &*record, false));
                            Err(err)
                        },
                        Some(Ok(unit)) => {
                            assert(r == Some(Result::<C>::Ok(unit)));
                            assert(Record::go_to_step(&before, to, &*record, true));
                            Ok(())
                        },
                        None => {
                            assert(Record::go_to_step(&before, to, &*record, true));
                            Ok(())
                        },
                    }
                },
            };
            match result {
                Ok(()) => {
                    proof {
                        Record::lemma_runs_push(&start, all.take(done), &before, kind, &*record);
                        assert(all.take(done).push(kind) =~= all.take(done + 1));
                        assert(rest.reverse().skip(1) =~= pending@.reverse());
                        done = done + 1;
                    }
                },
                Err(err) => {
                    assert(Record::action_step(&before, all[done], &*record, false));
                    assert(record.inv());
                    assert(Record::fails(&start, all, &*record));
                    outcome = Err(err);
                    break;
                },
            }
            proof {
                if pending.len() == 0 {
                    assert(all.take(done) =~= all);
                }
            }
        }
        outcome
    }

    /// Cancels the queued actions.
    pub fn cancel(self)
        ensures
            *final(self.record) == *old(self.record),
    {
    }

    /// Returns a queue on the same record.
    pub fn queue(&mut self) -> (q: Queue<'_, C, F>)
        ensures
            *q.record == *old(self).record,
            *final(q.record) == *final(self).record,
            q.commands@ == Seq::<QueueCommand<C>>::empty(),
            final(self).commands@ == old(self).commands@,
    {
        self.record.queue()
    }

    /// Returns a reference to the target.
    pub fn target(&self) -> (t: &C::Target)
        ensures
            *t == old(self.record).view_target(),
    {
        self.record.target()
    }

    /// Returns a mutable reference to the target.
    ///
    /// This method should **only** be used when doing changes that should not be able to be undone.
    pub fn target_mut(&mut self) -> (t: &mut C::Target)
        requires
            old(self).record.inv(),
        ensures
            *t == old(self).record.view_target(),
            final(self).record.view_target() == *final(t),
            final(self).record.inv(),
            final(self).record.entries() == old(self).record.entries(),
            final(self).record.spec_current() == old(self).record.spec_current(),
            final(self).record.same_frame(old(self).record),
            final(self).commands@ == old(self).commands@,
    {
        self.record.target_mut()
    }
}

impl<C: Command, F: FnMut(Signal)> Record<C, F> {
    /// Returns a queue.
    pub fn queue(&mut self) -> (q: Queue<'_, C, F>)
        ensures
            *q.record == *old(self),
            *final(q.record) == *final(self),
            q.commands@ == Seq::<QueueCommand<C>>::empty(),
    {
        Queue { record: self, commands: Vec::new() }
    }
}

/// An action carried out through a checkpoint, with what is needed to cancel it.
pub enum CheckpointCommand<C> {
    /// A command was applied: the saved position before, and the commands
    /// that were cut off.
    Apply(Option<usize>, Vec<Entry<C>>),
    /// Undone once.
    Undo,
    /// Redone once.
    Redo,
    /// Moved with `go_to` from the given position.
    GoTo(usize),
}

impl<C: Command, F> Record<C, F> {
    /// `cs` are the notes a checkpoint takes of the successful applies that
    /// lead from `a` to `b`, in order: each is `Apply` of the saved position
    /// before that apply and of the commands that apply cut off.
    pub open spec fn noted_applies(a: &Self, cs: Seq<CheckpointCommand<C>>, b: &Self) -> bool
        decreases cs.len(),
    {
        if cs.len() == 0 {
            *b == *a
        } else {
            exists|mid: Self| Self::noted_applies(a, cs.drop_last(), &mid)
                && #[trigger] Self::noted_apply(&mid, cs.last(), b)
        }
    }

    /// One more noted apply extends the notes.
    pub proof fn lemma_noted_push(a: &Self, cs: Seq<CheckpointCommand<C>>, m: &Self, note: CheckpointCommand<C>, b: &Self)
        requires
            Self::noted_applies(a, cs, m),
            Self::noted_apply(m, note, b),
        ensures
            Self::noted_applies(a, cs.push(note), b),
    {
        assert(cs.push(note).drop_last() =~= cs);
        assert(cs.push(note).last() == note);
    }

    /// `x` is `m` but for the command just before the position, which a
    /// merge offer may have changed: the same length, position, saved
    /// position and limit, the commands before it and from the position on.
    pub open spec fn same_but_last_applied(x: &Self, m: &Self) -> bool {
        let k = m.spec_current() as int;
        &&& x.inv()
        &&& x.spec_len() == m.spec_len()
        &&& x.spec_current() == m.spec_current()
        &&& x.saved_at() == m.saved_at()
        &&& x.spec_limit() == m.spec_limit()
        &&& x.entries().skip(k) == m.entries().skip(k)
        &&& forall|j: int| 0 <= j < k - 1 ==> #[trigger] x.entries()[j] == m.entries()[j]
    }

    /// A successful apply leaves nothing to redo and grows the record by at
    /// most one command past the old position; by exactly one only when the
    /// command was pushed below the limit.
    pub proof fn lemma_apply_grows_by_at_most_one(m: &Self, b: &Self)
        requires
            m.inv(),
            Self::apply_step(m, b, true),
        ensures
            b.spec_current() == b.spec_len(),
            b.spec_len() <= m.spec_current() + 1,
            b.spec_len() == m.spec_current() + 1 ==> Self::applied_pushed(m, b) && m.spec_current() < m.spec_limit(),
    {
    }

    /// After successful applies noted from `a` to `b`, nothing can be redone,
    /// and the record holds at most one command per apply past `a`'s position.
    pub proof fn lemma_noted_growth(a: &Self, cs: Seq<CheckpointCommand<C>>, b: &Self)
        requires
            a.inv(),
            Self::noted_applies(a, cs, b),
        ensures
            b.inv(),
            cs.len() > 0 ==> b.spec_current() == b.spec_len(),
            cs.len() > 0 ==> b.spec_len() <= a.spec_current() + cs.len(),
            cs.len() == 0 ==> *b == *a,
        decreases cs.len(),
    {
        if cs.len() > 0 {
            let m = choose|m: Self| Self::noted_applies(a, cs.drop_last(), &m)
                && #[trigger] Self::noted_apply(&m, cs.last(), b);
            Self::lemma_noted_growth(a, cs.drop_last(), &m);
            Self::lemma_apply_grows_by_at_most_one(&m, b);
        }
    }

    /// Cancelling the note of one command pushed below the limit, from a
    /// record that is the one after the push but for its last command, gives
    /// the record before the push but for the command before its position.
    pub proof fn lemma_cancel_one_noted(m: &Self, note: CheckpointCommand<C>, b: &Self, x: &Self, y: &Self)
        requires
            Self::noted_apply(m, note, b),
            b.spec_len() == m.spec_current() + 1,
            Self::same_but_last_applied(x, b),
            Self::cancel_step(x, note, y, true),
        ensures
            Self::same_but_last_applied(y, m),
    {
        let k = m.spec_current() as int;
        Self::lemma_apply_grows_by_at_most_one(m, b);
        let mid = choose|mid: Self| #[trigger] Self::undo_step(x, &mid, true)
            && Self::restored(&mid, note->Apply_0, note->Apply_1@, y);
        assert(mid.spec_current() == k);
        assert(mid.spec_len() == k + 1);
        let kept = mid.entries().drop_last();
        assert(kept.len() + note->Apply_1@.len() == m.spec_len());
        assert(y.entries() == kept + note->Apply_1@);
        assert(y.entries().skip(k) =~= m.entries().skip(k));
        assert forall|j: int| 0 <= j < k - 1 implies #[trigger] y.entries()[j] == m.entries()[j] by {
            assert(y.entries()[j] == mid.entries()[j]);
            assert(mid.entries()[j] == x.entries()[j]);
            assert(x.entries()[j] == b.entries()[j]);
            assert(b.entries().take(k)[j] == b.entries()[j]);
            assert(m.entries().take(k)[j] == m.entries()[j]);
        }
    }

    /// Cancelling all notes of applies that each pushed their command below
    /// the limit, starting from a record that is the one after them but for
    /// its last command, gives the record before them but for the command
    /// before its position.
    pub proof fn lemma_cancel_noted(a: &Self, cs: Seq<CheckpointCommand<C>>, b: &Self, x: &Self, c: &Self)
        requires
            a.inv(),
            Self::noted_applies(a, cs, b),
            cs.len() > 0 ==> b.spec_len() == a.spec_current() + cs.len(),
            Self::same_but_last_applied(x, b),
            Self::cancels(x, cs, c),
        ensures
            Self::same_but_last_applied(c, a),
        decreases cs.len(),
    {
        if cs.len() == 0 {
            Self::lemma_noted_growth(a, cs, b);
        } else {
            let m = choose|m: Self| Self::noted_applies(a, cs.drop_last(), &m)
                && #[trigger] Self::noted_apply(&m, cs.last(), b);
            let y = choose|y: Self| #[trigger] Self::cancel_step(x, cs.last(), &y, true)
                && Self::cancels(&y, cs.drop_last(), c);
            Self::lemma_noted_growth(a, cs.drop_last(), &m);
            Self::lemma_apply_grows_by_at_most_one(&m, b);
            assert(b.spec_len() == m.spec_current() + 1);
            Self::lemma_cancel_one_noted(&m, cs.last(), b, x, &y);
            Self::lemma_cancel_noted(a, cs.drop_last(), &m, &y, c);
        }
    }

    /// Cancelling, through a checkpoint, commands that were applied through
    /// it (as `extend` does) and each pushed below the limit, so that the
    /// record grew by one command per apply past its position, gives back the
    /// record from before: its length, its position, its saved position and
    /// the commands the applies cut off. Only the command just before the
    /// position may differ: it was offered the first command for merging.
    pub proof fn law_cancel_undoes_noted_applies(a: &Self, cs: Seq<CheckpointCommand<C>>, b: &Self, c: &Self)
        requires
            a.inv(),
            Self::noted_applies(a, cs, b),
            cs.len() > 0 ==> b.spec_len() == a.spec_current() + cs.len(),
            Self::cancels(b, cs, c),
        ensures
            c.spec_len() == a.spec_len(),
            c.spec_current() == a.spec_current(),
            c.saved_at() == a.saved_at(),
            c.entries().skip(a.spec_current() as int) == a.entries().skip(a.spec_current() as int),
            forall|j: int| 0 <= j < a.spec_current() - 1 ==> #[trigger] c.entries()[j] == a.entries()[j],
    {
        Self::lemma_noted_growth(a, cs, b);
        assert(b.entries().skip(b.spec_current() as int) =~= b.entries().skip(b.spec_current() as int));
        assert(Self::same_but_last_applied(b, b));
        Self::lemma_cancel_noted(a, cs, b, b, c);
    }

    /// `note` is what a checkpoint notes of a successful apply from `mid` to
    /// `b`: the saved position before it and the commands it cut off.
    pub open spec fn noted_apply(mid: &Self, note: CheckpointCommand<C>, b: &Self) -> bool {
        &&& mid.inv()
        &&& Self::apply_step(mid, b, true)
        &&& note is Apply
        &&& note->Apply_0 == mid.saved_at()
        &&& note->Apply_1@ == mid.entries().skip(mid.spec_current() as int)
    }

    /// `new` is `mid` with an applied command taken back: the last command,
    /// if there is one, is dropped and the cut-off commands `tail` and the
    /// saved position `saved` are put back, provided they fit within the
    /// limit; otherwise nothing changes.
    pub open spec fn restored(mid: &Self, saved: Option<usize>, tail: Seq<Entry<C>>, new: &Self) -> bool {
        let kept = if mid.spec_len() > 0 { mid.entries().drop_last() } else { mid.entries() };
        let fits = kept.len() + tail.len() <= mid.spec_limit();
        &&& fits ==> {
            &&& new.entries() == kept + tail
            &&& new.spec_current() == mid.spec_current()
            &&& new.saved_at() == saved
            &&& new.spec_limit() == mid.spec_limit()
            &&& new.connected() == mid.connected()
            &&& new.view_target() == mid.view_target()
        }
        &&& !fits ==> *new == *mid
    }

    /// `new` is `old` after the checkpointed `action` was cancelled,
    /// successfully if `ok`.
    pub open spec fn cancel_step(old: &Self, action: CheckpointCommand<C>, new: &Self, ok: bool) -> bool {
        match action {
            CheckpointCommand::Apply(saved, tail) => exists|mid: Self| #[trigger] Self::undo_step(old, &mid, ok)
                && (ok ==> Self::restored(&mid, saved, tail@, new))
                && (!ok ==> *new == mid),
            CheckpointCommand::Undo => Self::redo_step(old, new, ok),
            CheckpointCommand::Redo => Self::undo_step(old, new, ok),
            CheckpointCommand::GoTo(from) => Self::go_to_step(old, from, new, ok),
        }
    }

    /// `new` is `old` after all of `actions` were cancelled, the last first,
    /// each successfully.
    pub open spec fn cancels(old: &Self, actions: Seq<CheckpointCommand<C>>, new: &Self) -> bool
        decreases actions.len(),
    {
        if actions.len() == 0 {
            *new == *old
        } else {
            exists|mid: Self| #[trigger] Self::cancel_step(old, actions.last(), &mid, true)
                && Self::cancels(&mid, actions.drop_last(), new)
        }
    }

    /// `new` is `old` after the last actions of `actions` were cancelled and
    /// cancelling the one before them failed.
    pub open spec fn cancel_fails(old: &Self, actions: Seq<CheckpointCommand<C>>, new: &Self) -> bool {
        exists|k: int, mid: Self| 0 <= k < actions.len()
            && #[trigger] Self::cancels(old, actions.skip(k + 1), &mid)
            && Self::cancel_step(&mid, actions[k], new, false)
    }

    /// Cancelling one more, earlier, action extends a cancellation.
    pub proof fn lemma_cancels_prepend(a: &Self, actions: Seq<CheckpointCommand<C>>, m: &Self, x: CheckpointCommand<C>, b: &Self)
        requires
            Self::cancels(a, actions, m),
            Self::cancel_step(m, x, b, true),
        ensures
            Self::cancels(a, seq![x] + actions, b),
        decreases actions.len(),
    {
        let all = seq![x] + actions;
        if actions.len() == 0 {
            assert(all.drop_last() =~= Seq::<CheckpointCommand<C>>::empty());
            assert(Self::cancels(b, all.drop_last(), b));
            assert(all.last() == x);
        } else {
            let mid = choose|mid: Self| #[trigger] Self::cancel_step(a, actions.last(), &mid, true)
                && Self::cancels(&mid, actions.drop_last(), m);
            Self::lemma_cancels_prepend(&mid, actions.drop_last(), m, x, b);
            assert(all.drop_last() =~= seq![x] + actions.drop_last());
            assert(all.last() == actions.last());
        }
    }
}

/// Wraps a record and gives it checkpoint functionality: the changes made
/// through the checkpoint can be cancelled.
pub struct Checkpoint<'a, C: Command, F> {
    /// The record the changes are made to.
    pub record: &'a mut Record<C, F>,
    /// What was done through the checkpoint, first first.
    pub commands: Vec<CheckpointCommand<C>>,
}

impl<'a, C: Command, F: FnMut(Signal)> Checkpoint<'a, C, F> {
    /// Returns a checkpoint on `record`.
    pub fn new(record: &'a mut Record<C, F>) -> (c: Checkpoint<'a, C, F>)
        ensures
            *c.record == *old(record),
            *final(c.record) == *final(record),
            c.commands@ == Seq::<CheckpointCommand<C>>::empty(),
    {
        Checkpoint { record, commands: Vec::new() }
    }

    /// Calls the `apply` method.
    pub fn apply(&mut self, command: C) -> (r: Result<C>)
        requires
            old(self).record.inv(),
        ensures
            Record::apply_step(&*old(self).record, &*final(self).record, r is Ok),
            r is Ok ==> final(self).commands@ == old(self).commands@.push(CheckpointCommand::Apply(
                old(self).record.saved_at(), final(self).commands@.last()->Apply_1)),
            r is Ok ==> final(self).commands@.last()->Apply_1@
                == old(self).record.entries().skip(old(self).record.spec_current() as int),
            r is Err ==> final(self).commands@ == old(self).commands@,
    {
        let saved = self.record.saved;
        match self.record.apply_entry(command) {
            Ok((_, tail)) => {
                self.commands.push(CheckpointCommand::Apply(saved, tail));
                Ok(())
            },
            Err(err) => Err(err),
        }
    }

    /// Calls the `undo` method, and notes it if something was undone.
    pub fn undo(&mut self) -> (r: Result<C>)
        requires
            old(self).record.inv(),
        ensures
            Record::undo_step(&*old(self).record, &*final(self).record, r is Ok),
            final(self).commands@ == (if old(self).record.spec_can_undo() && r is Ok {
                old(self).commands@.push(CheckpointCommand::Undo)
            } else {
                old(self).commands@
            }),
    {
        if self.record.can_undo() {
            match self.record.undo() {
                Ok(()) => {},
                Err(err) => return Err(err),
            }
            self.commands.push(CheckpointCommand::Undo);
        }
        Ok(())
    }

    /// Calls the `redo` method, and notes it if something was redone.
    pub fn redo(&mut self) -> (r: Result<C>)
        requires
            old(self).record.inv(),
        ensures
            Record::redo_step(&*old(self).record, &*final(self).record, r is Ok),
            final(self).commands@ == (if old(self).record.spec_can_redo() && r is Ok {
                old(self).commands@.push(CheckpointCommand::Redo)
            } else {
                old(self).commands@
            }),
    {
        if self.record.can_redo() {
            match self.record.redo() {
                Ok(()) => {},
                Err(err) => return Err(err),
            }
            self.commands.push(CheckpointCommand::Redo);
        }
        Ok(())
    }

    /// Calls the `go_to` method, and notes the position it left if it
    /// succeeded.
    pub fn go_to(&mut self, current: usize) -> (r: Option<Result<C>>)
        requires
            old(self).record.inv(),
        ensures
            Record::go_to_step(&*old(self).record, current, &*final(self).record, r is None || r == Some(Result::<C>::Ok(()))),
            r is None <==> current > old(self).record.spec_len(),
            final(self).commands@ == (if r == Some(Result::<C>::Ok(())) {
                old(self).commands@.push(CheckpointCommand::GoTo(old(self).record.spec_current()))
            } else {
                old(self).commands@
            }),
    {
        let from = self.record.current;
        let r = self.record.go_to(current);
        match r {
            Some(Ok(unit)) => {
                assert(r == Some(Result::<C>::Ok(unit)));
                self.commands.push(CheckpointCommand::GoTo(from));
                Some(Ok(unit))
            },
            Some(Err(err)) => Some(Err(err)),
            None => None,
        }
    }

    /// Calls the `apply` method for each of `commands`, in order, stopping at
    /// the first error.
    pub fn extend(&mut self, commands: Vec<C>) -> (r: Result<C>)
        requires
            old(self).record.inv(),
        ensures
            final(self).record.inv(),
            r is Ok ==> Record::runs(&*old(self).record, applies(commands@), &*final(self).record),
            r is Err ==> Record::fails(&*old(self).record, applies(commands@), &*final(self).record),
            final(self).commands@.len() >= old(self).commands@.len(),
            final(self).commands@.take(old(self).commands@.len() as int) == old(self).commands@,
            forall|i: int| old(self).commands@.len() <= i < final(self).commands@.len()
                ==> #[trigger] final(self).commands@[i] is Apply,
            r is Ok ==> final(self).commands@.len() == old(self).commands@.len() + commands@.len(),
            r is Ok ==> Record::noted_applies(&*old(self).record,
                final(self).commands@.skip(old(self).commands@.len() as int), &*final(self).record),
    {
        let ghost start = *self.record;
        let ghost all = applies(commands@);
        let ghost n0 = self.commands@.len();
        let mut pending = reversed(commands);
        let ghost mut done: int = 0;
        assert(Record::runs(&start, all.take(0), &*self.record)) by {
            assert(all.take(0) =~= Seq::<QueueCommand<C>>::empty());
        }
        assert(self.commands@.take(n0 as int) =~= self.commands@);
        assert(all.take(all.len() as int) =~= all);
        assert(self.commands@.skip(n0 as int) =~= Seq::<CheckpointCommand<C>>::empty());
        let mut outcome: Result<C> = Ok(());
        while pending.len() > 0
            invariant_except_break
                applies(pending@.reverse()) =~= all.skip(done),
                all.take(all.len() as int) == all,
                pending@.len() + done == all.len(),
                Record::runs(&start, all.take(done), &*self.record),
                self.commands@.len() == n0 + done,
                Record::noted_applies(&start, self.commands@.skip(n0 as int), &*self.record),
                outcome is Ok,
            invariant
                self.record.inv(),
                start == *old(self).record,
                0 <= done <= all.len(),
                all.len() == commands@.len(),
                n0 == old(self).commands@.len(),
                self.commands@.len() >= n0,
                self.commands@.take(n0 as int) == old(self).commands@,
                forall|i: int| n0 <= i < self.commands@.len() ==> #[trigger] self.commands@[i] is Apply,
            ensures
                self.record.inv(),
                outcome is Ok ==> Record::runs(&start, all, &*self.record),
                outcome is Ok ==> self.commands@.len() == n0 + all.len(),
                outcome is Ok ==> Record::noted_applies(&start, self.commands@.skip(n0 as int), &*self.record),
                outcome is Err ==> Record::fails(&start, all, &*self.record),
            decreases pending.len(),
        {
            let ghost before = *self.record;
            let ghost rest = pending@;
            let ghost cs = self.commands@;
            let command = pending.pop().unwrap();
            proof {
                assert(rest.reverse()[0] == rest[rest.len() - 1]);
                assert(applies(rest.reverse())[0] == QueueCommand::Apply(rest.reverse()[0]));
                assert(all.skip(done)[0] == all[done]);
                assert(all[done] == QueueCommand::Apply(command));
                assert(applies(rest.reverse()).skip(1) =~= applies(pending@.reverse()));
            }
            match self.apply(command) {
                Ok(()) => {
                    proof {
                        Record::lemma_runs_push(&start, all.take(done), &before, QueueCommand::Apply(command), &*self.record);
                        assert(all.take(done).push(QueueCommand::Apply(command)) =~= all.take(done + 1));
                        assert(self.commands@.take(n0 as int) =~= cs.take(n0 as int));
                        assert(self.commands@.skip(n0 as int).drop_last() =~= cs.skip(n0 as int));
                        assert(Record::noted_apply(&before, self.commands@.skip(n0 as int).last(), &*self.record));
                        let notes = self.commands@.skip(n0 as int);
                        Record::lemma_noted_push(&start, notes.drop_last(), &before, notes.last(), &*self.record);
                        assert(notes.drop_last().push(notes.last()) =~= notes);
                        done = done + 1;
                    }
                },
                Err(err) => {
                    assert(Record::action_step(&before, all[done], &*self.record, false));
                    assert(Record::fails(&start, all, &*self.record));
                    outcome = Err(err);
                    break;
                },
            }
            proof {
                if pending.len() == 0 {
                    assert(all.take(done) =~= all);
                }
            }
        }
        outcome
    }

    /// Reserves capacity for at least `additional` more changes in the
    /// checkpoint.
    pub fn reserve(&mut self, additional: usize)
        ensures
            *final(self).record == *old(self).record,
            final(self).commands@ == old(self).commands@,
    {
        self.commands.reserve(additional);
    }

    /// Returns the capacity of the checkpoint.
    pub fn capacity(&self) -> (c: usize)
        ensures
            c >= self.commands@.len(),
    {
        vec_capacity(&self.commands)
    }

    /// Shrinks the capacity of the checkpoint as much as possible.
    pub fn shrink_to_fit(&mut self)
        ensures
            *final(self).record == *old(self).record,
            final(self).commands@ == old(self).commands@,
    {
        vec_shrink_to_fit(&mut self.commands);
    }

    /// Returns the number of changes noted in the checkpoint.
    pub fn len(&self) -> (n: usize)
        ensures
            n == self.commands@.len(),
    {
        self.commands.len()
    }

    /// Returns `true` if no change is noted in the checkpoint.
    pub fn is_empty(&self) -> (b: bool)
        ensures
            b == (self.commands@.len() == 0),
    {
        self.commands.len() == 0
    }

    /// Commits the changes and consumes the checkpoint.
    pub fn commit(self)
        ensures
            *final(self.record) == *old(self.record),
    {
    }

    /// Cancels the changes and consumes the checkpoint.
    ///
    /// # Errors
    /// If an error occurs when canceling the changes, the error is returned
    /// and the remaining changes are not canceled.
    pub fn cancel(self) -> (r: Result<C>)
        requires
            old(self.record).inv(),
        ensures
            final(self.record).inv(),
            r is Ok ==> Record::cancels(&*old(self.record), self.commands@, &*final(self.record)),
            r is Err ==> Record::cancel_fails(&*old(self.record), self.commands@, &*final(self.record)),
    {
        let Checkpoint { record, commands } = self;
        let ghost start = *record;
        let ghost all = commands@;
        let mut commands = commands;
        let mut outcome: Result<C> = Ok(());
        assert(all.skip(all.len() as int) =~= Seq::<CheckpointCommand<C>>::empty());
        assert(all.skip(0) =~= all);
        assert(all.take(all.len() as int) =~= all);
        while commands.len() > 0
            invariant_except_break
                all.skip(0) == all,
                commands@ == all.take(commands@.len() as int),
                Record::cancels(&start, all.skip(commands@.len() as int), &*record),
                outcome is Ok,
            invariant
                record.inv(),
                commands@.len() <= all.len(),
            ensures
                record.inv(),
                outcome is Ok ==> Record::cancels(&start, all, &*record),
                outcome is Err ==> Record::cancel_fails(&start, all, &*record),
            decreases commands.len(),
        {
            let ghost before = *record;
            let ghost n = commands@.len() as int;
            let action = commands.pop().unwrap();
            assert(all[n - 1] == action);
            let ghost kind = action;
            let result = match action {
                CheckpointCommand::Apply(saved, mut tail) => {
                    match record.undo() {
                        Ok(()) => {
                            let ghost mid = *record;
                            let len = record.entries.len();
                            let kept = if len > 0 { len - 1 } else { 0 };
                            assert(record.current <= kept);
                            if tail.len() <= record.limit - kept {
                                if len > 0 {
                                    record.entries.pop();
                                }
                                record.entries.append(&mut tail);
                                record.saved = saved;
                            }
                            assert(Record::restored(&mid, saved, kind->Apply_1@, &*record));
                            assert(Record::cancel_step(&before, kind, &*record, true));
                            Ok(())
                        },
                        Err(err) => {
                            assert(Record::cancel_step(&before, kind, &*record, false));
                            Err(err)
                        },
                    }
                },
                CheckpointCommand::Undo => record.redo(),
                CheckpointCommand::Redo => record.undo(),
                CheckpointCommand::GoTo(from) => {
                    let r = record.go_to(from);
                    match r {
                        Some(Err(err)) => {
                            assert(Record::go_to_step(&before, from, &*record, false));
                            Err(err)
                        },
                        Some(Ok(unit)) => {
                            assert(r == Some(Result::<C>::Ok(unit)));
                            assert(Record::go_to_step(&before, from, &*record, true));
                            Ok(())
                        },
                        None => {
                            assert(Record::go_to_step(&before, from, &*record, true));
                            Ok(())
                        },
                    }
                },
            };
            match result {
                Ok(()) => {
                    proof {
                        Record::lemma_cancels_prepend(&start, all.skip(n), &before, kind, &*record);
                        assert(seq![kind] + all.skip(n) =~= all.skip(n - 1));
                        assert(commands@ =~= all.take(n - 1));
                    }
                },
                Err(err) => {
                    assert(all.skip(n - 1 + 1) == all.skip(n));
                    assert(Record::cancel_fails(&start, all, &*record));
                    outcome = Err(err);
                    break;
                },
            }
            proof {
                if commands@.len() == 0 {
                    assert(all.skip(0) =~= all);
                }
            }
        }
        outcome
    }

    /// Returns a queue on the same record.
    pub fn queue(&mut self) -> (q: Queue<'_, C, F>)
        ensures
            *q.record == *old(self).record,
            *final(q.record) == *final(self).record,
            q.commands@ == Seq::<QueueCommand<C>>::empty(),
            final(self).commands@ == old(self).commands@,
    {
        self.record.queue()
    }

    /// Returns a checkpoint on the same record.
    pub fn checkpoint(&mut self) -> (c: Checkpoint<'_, C, F>)
        ensures
            *c.record == *old(self).record,
            *final(c.record) == *final(self).record,
            c.commands@ == Seq::<CheckpointCommand<C>>::empty(),
            final(self).commands@ == old(self).commands@,
    {
        self.record.checkpoint()
    }

    /// Returns a reference to the target.
    pub fn target(&self) -> (t: &C::Target)
        ensures
            *t == old(self.record).view_target(),
    {
        self.record.target()
    }

    /// Returns a mutable reference to the target.
    ///
    /// This method should **only** be used when doing changes that should not be able to be undone.
    pub fn target_mut(&mut self) -> (t: &mut C::Target)
        requires
            old(self).record.inv(),
        ensures
            *t == old(self).record.view_target(),
            final(self).record.view_target() == *final(t),
            final(self).record.inv(),
            final(self).record.entries() == old(self).record.entries(),
            final(self).record.spec_current() == old(self).record.spec_current(),
            final(self).record.same_frame(old(self).record),
            final(self).commands@ == old(self).commands@,
    {
        self.record.target_mut()
    }
}

impl<C: Command, F: FnMut(Signal)> Record<C, F> {
    /// Returns a checkpoint.
    pub fn checkpoint(&mut self) -> (c: Checkpoint<'_, C, F>)
        ensures
            *c.record == *old(self),
            *final(c.record) == *final(self),
            c.commands@ == Seq::<CheckpointCommand<C>>::empty(),
    {
        Checkpoint { record: self, commands: Vec::new() }
    }
}

impl<'a, C: Command, F: FnMut(Signal)> Queue<'a, C, F> {
    /// Returns a checkpoint on the same record.
    pub fn checkpoint(&mut self) -> (c: Checkpoint<'_, C, F>)
        ensures
            *c.record == *old(self).record,
            *final(c.record) == *final(self).record,
            c.commands@ == Seq::<CheckpointCommand<C>>::empty(),
            final(self).commands@ == old(self).commands@,
    {
        self.record.checkpoint()
    }
}

/// Configurable display formatting for a record: the lines it shows, and
/// which parts of them.
pub struct Display<'a, C: Command, F> {
    /// The record shown.
    pub record: &'a Record<C, F>,
    /// Which parts of the lines are shown.
    pub format: Format,
}

impl<C: Command, F> Record<C, F> {
    /// Returns a structure for configurable formatting of the record.
    pub fn display(&self) -> (d: Display<'_, C, F>)
        ensures
            *d.record == *self,
            d.format == Format::all_on(),
    {
        Display { record: self, format: Format::new() }
    }

    /// The line of the command that leads to position `i` (at least 1) in
    /// a display of the record.
    pub open spec fn line(&self, i: int) -> Row<'_, C> {
        Row::Line {
            at: At::new_spec(0, i as usize),
            level: 0,
            entry: Some(&self.entries()[i - 1]),
            current: i == self.spec_current(),
            saved: self.saved_at() == Some(i as usize),
        }
    }
}

impl<'a, C: Command, F> Display<'a, C, F> {
    /// Show colored output (on by default).
    pub fn colored(&mut self, on: bool) -> (d: &mut Self)
        ensures
            d.record == old(self).record,
            d.format == (Format { colored: on, ..old(self).format }),
            *final(self) == *final(d),
    {
        self.format.colored = on;
        self
    }

    /// Show the current position in the output (on by default).
    pub fn current(&mut self, on: bool) -> (d: &mut Self)
        ensures
            d.record == old(self).record,
            d.format == (Format { current: on, ..old(self).format }),
            *final(self) == *final(d),
    {
        self.format.current = on;
        self
    }

    /// Show detailed output (on by default).
    pub fn detailed(&mut self, on: bool) -> (d: &mut Self)
        ensures
            d.record == old(self).record,
            d.format == (Format { detailed: on, ..old(self).format }),
            *final(self) == *final(d),
    {
        self.format.detailed = on;
        self
    }

    /// Show the position of the command (on by default).
    pub fn position(&mut self, on: bool) -> (d: &mut Self)
        ensures
            d.record == old(self).record,
            d.format == (Format { position: on, ..old(self).format }),
            *final(self) == *final(d),
    {
        self.format.position = on;
        self
    }

    /// Show the saved command (on by default).
    pub fn saved(&mut self, on: bool) -> (d: &mut Self)
        ensures
            d.record == old(self).record,
            d.format == (Format { saved: on, ..old(self).format }),
            *final(self) == *final(d),
    {
        self.format.saved = on;
        self
    }

    /// The lines of the display, top to bottom: one for each command, the
    /// newest first.
    pub fn rows(&self) -> (rows: Vec<Row<'a, C>>)
        requires
            self.record.inv(),
        ensures
            rows@.len() == self.record.spec_len(),
            forall|k: int| 0 <= k < rows@.len()
                ==> #[trigger] rows@[k] == self.record.line(self.record.spec_len() - k),
    {
        let record: &'a Record<C, F> = self.record;
        let len = record.entries.len();
        let mut rows: Vec<Row<'a, C>> = Vec::new();
        let mut i = len;
        while i > 0
            invariant
                i <= len == record.spec_len(),
                record.inv(),
                rows@.len() == len - i,
                forall|k: int| 0 <= k < rows@.len() ==> #[trigger] rows@[k] == record.line(len - k),
            decreases i,
        {
            let entry: &'a Entry<C> = &record.entries[i - 1];
            let saved = match record.saved {
                Some(s) => s == i,
                None => false,
            };
            rows.push(Row::Line {
                at: At::new(0, i),
                level: 0,
                entry: Some(entry),
                current: i == record.current,
                saved,
            });
            i -= 1;
        }
        rows
    }
}

} // verus!
