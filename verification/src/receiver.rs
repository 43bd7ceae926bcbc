//! A record of commands that owns its receiver and reports when its state
//! changes between clean and dirty.

use vstd::prelude::*;
use crate::command::{Command, Merge};
use crate::record::{reversed, vec_capacity};

mod config;

pub use self::config::Config;

verus! {

/// Calls the user's state-change function `f` with `clean`
/// (`FnMut::call_mut` of std). Nothing is claimed of what the function does.
#[verifier::external_body]
fn call_state_change<F: FnMut(bool)>(f: &mut F, clean: bool) {
    f(clean)
}

/// A record of commands.
///
/// The record is clean when all its commands are applied, and dirty otherwise.
pub struct Record<C: Command, F> {
    commands: Vec<C>,
    receiver: C::Target,
    idx: usize,
    limit: Option<usize>,
    state_change: Option<F>,
    reported: Ghost<Seq<bool>>,
}

/// The commands that were cut off a record, in their order.
pub struct Commands<C> {
    // Kept last first, so that the next one is at the back.
    rest: Vec<C>,
}

impl<C> Commands<C> {
    /// The commands still to come, in order.
    pub closed spec fn remaining(&self) -> Seq<C> {
        self.rest@.reverse()
    }

    /// Returns the next command, if any.
    pub fn next(&mut self) -> (c: Option<C>)
        ensures
            old(self).remaining().len() == 0 ==> c is None && final(self).remaining() == old(self).remaining(),
            old(self).remaining().len() > 0 ==> c == Some(old(self).remaining()[0])
                && final(self).remaining() == old(self).remaining().skip(1),
    {
        let ghost before = self.rest@;
        let c = self.rest.pop();
        proof {
            if before.len() > 0 {
                assert(before.reverse().skip(1) =~= self.rest@.reverse());
            } else {
                assert(self.rest@.reverse() =~= before.reverse());
            }
        }
        c
    }

    /// Returns the number of commands still to come.
    pub fn len(&self) -> (n: usize)
        ensures
            n == self.remaining().len(),
    {
        self.rest.len()
    }
}

impl<C: Command, F> Record<C, F> {
    /// The commands of the record, oldest first.
    pub closed spec fn commands(&self) -> Seq<C> {
        self.commands@
    }

    /// The number of commands that are applied.
    pub closed spec fn idx(&self) -> nat {
        self.idx as nat
    }

    /// The most commands the record keeps, if it is limited.
    pub closed spec fn spec_limit(&self) -> Option<usize> {
        self.limit
    }

    /// The receiver.
    pub closed spec fn view_receiver(&self) -> C::Target {
        self.receiver
    }

    /// Whether a state-change function is set.
    pub closed spec fn reports(&self) -> bool {
        self.state_change is Some
    }

    /// What the state-change function was told so far, oldest first: `true`
    /// for clean, `false` for dirty.
    pub closed spec fn reported(&self) -> Seq<bool> {
        self.reported@
    }

    /// What the state-change function was told after it was told `s`: it
    /// hears only where one is set.
    pub open spec fn told(&self, s: Seq<bool>) -> Seq<bool> {
        if self.reports() { self.reported() + s } else { self.reported() }
    }

    /// The record is well formed: no more commands applied than it holds,
    /// and, if it is limited, a positive limit that it keeps to.
    pub open spec fn inv(&self) -> bool {
        &&& self.idx() <= self.commands().len()
        &&& self.spec_limit() matches Some(l) ==> l > 0 && self.commands().len() <= l
    }

    /// All commands are applied.
    pub open spec fn spec_is_clean(&self) -> bool {
        self.idx() == self.commands().len()
    }

    /// Returns a new record.
    pub fn new(receiver: C::Target) -> (r: Record<C, F>)
        ensures
            r.inv(),
            r.commands() == Seq::<C>::empty(),
            r.idx() == 0,
            r.spec_limit() is None,
            r.view_receiver() == receiver,
            !r.reports(),
    {
        Record { commands: Vec::new(), receiver, idx: 0, limit: None, state_change: None, reported: Ghost(Seq::empty()) }
    }

    /// Returns a configurator for a record.
    pub fn config(receiver: C::Target) -> (c: Config<C, F>)
        ensures
            c.view_receiver() == receiver,
            c.spec_capacity() == 0,
            c.spec_limit() == 0,
            !c.reports(),
    {
        Config::new(receiver)
    }

    /// Returns the capacity of the record.
    pub fn capacity(&self) -> (c: usize)
        ensures
            c >= self.commands().len(),
    {
        vec_capacity(&self.commands)
    }

    /// Returns the number of commands in the record.
    pub fn len(&self) -> (n: usize)
        ensures
            n == self.commands().len(),
    {
        self.commands.len()
    }

    /// Returns `true` if the record is empty.
    pub fn is_empty(&self) -> (b: bool)
        ensures
            b == (self.commands().len() == 0),
    {
        self.commands.len() == 0
    }

    /// Returns a reference to the `receiver`.
    pub fn as_receiver(&self) -> (r: &C::Target)
        ensures
            *r == self.view_receiver(),
    {
        &self.receiver
    }

    /// Consumes the record, returning the `receiver`.
    pub fn into_receiver(self) -> (r: C::Target)
        ensures
            r == self.view_receiver(),
    {
        self.receiver
    }

    /// Returns `true` if the state of the record is clean, `false` otherwise.
    pub fn is_clean(&self) -> (b: bool)
        ensures
            b == self.spec_is_clean(),
    {
        self.idx == self.commands.len()
    }

    /// Returns `true` if the state of the record is dirty, `false` otherwise.
    pub fn is_dirty(&self) -> (b: bool)
        ensures
            b == !self.spec_is_clean(),
    {
        !self.is_clean()
    }

    /// Builds a record from its parts.
    pub(crate) fn from_parts(commands: Vec<C>, receiver: C::Target, limit: Option<usize>, state_change: Option<F>) -> (r: Record<C, F>)
        requires
            commands@.len() == 0,
            limit matches Some(l) ==> l > 0,
        ensures
            r.inv(),
            r.commands() == commands@,
            r.idx() == 0,
            r.spec_limit() == limit,
            r.view_receiver() == receiver,
            r.reports() == (state_change is Some),
    {
        Record { commands, receiver, idx: 0, limit, state_change, reported: Ghost(Seq::empty()) }
    }
}

impl<C: Command, F> Record<C, F> {
    /// `new` is `old` after `redo`, which succeeded if `ok` holds: with
    /// nothing to redo nothing changes; otherwise only the command at the
    /// position may have changed, and on success the position moved forward.
    pub open spec fn redo_step(old: &Self, new: &Self, ok: bool) -> bool {
        &&& new.inv()
        &&& new.spec_limit() == old.spec_limit()
        &&& new.commands().len() == old.commands().len()
        &&& old.idx() == old.commands().len() ==> ok && new.commands() == old.commands() && new.idx() == old.idx()
        &&& old.idx() < old.commands().len() ==> new.idx() == (if ok { old.idx() + 1 } else { old.idx() + 0 })
        &&& forall|j: int| 0 <= j < old.commands().len() && j != old.idx()
            ==> #[trigger] new.commands()[j] == old.commands()[j]
        &&& new.reports() == old.reports()
        &&& new.reported() == (if ok && old.idx() + 1 == old.commands().len() {
            old.told(seq![true])
        } else {
            old.reported()
        })
    }

    /// `new` is `old` after `undo`, which succeeded if `ok` holds: with
    /// nothing to undo nothing changes; otherwise the position moved back,
    /// even on failure, and only the command there may have changed.
    pub open spec fn undo_step(old: &Self, new: &Self, ok: bool) -> bool {
        &&& new.inv()
        &&& new.spec_limit() == old.spec_limit()
        &&& new.commands().len() == old.commands().len()
        &&& old.idx() == 0 ==> ok && new.commands() == old.commands() && new.idx() == 0
        &&& old.idx() > 0 ==> new.idx() == old.idx() - 1
        &&& forall|j: int| 0 <= j < old.commands().len() && j != old.idx() - 1
            ==> #[trigger] new.commands()[j] == old.commands()[j]
        &&& new.reports() == old.reports()
        &&& new.reported() == (if ok && old.idx() > 0 && old.spec_is_clean() {
            old.told(seq![false])
        } else {
            old.reported()
        })
    }

    /// Undoing a command and then redoing it brings the record back to the
    /// position it was at; the other commands stay as they were.
    pub proof fn law_undo_then_redo(a: &Self, b: &Self, c: &Self)
        requires
            a.inv(),
            a.idx() > 0,
            Self::undo_step(a, b, true),
            Self::redo_step(b, c, true),
        ensures
            c.idx() == a.idx(),
            c.commands().len() == a.commands().len(),
            c.spec_is_clean() == a.spec_is_clean(),
            forall|j: int| 0 <= j < a.commands().len() && j != a.idx() - 1
                ==> #[trigger] c.commands()[j] == a.commands()[j],
    {
        assert forall|j: int| 0 <= j < a.commands().len() && j != a.idx() - 1
            implies #[trigger] c.commands()[j] == a.commands()[j] by {
            assert(b.commands()[j] == a.commands()[j]);
        }
    }
}

impl<C: Command, F: FnMut(bool)> Record<C, F> {
    fn report(&mut self, clean: bool)
        ensures
            final(self).commands() == old(self).commands(),
            final(self).idx() == old(self).idx(),
            final(self).spec_limit() == old(self).spec_limit(),
            final(self).view_receiver() == old(self).view_receiver(),
            final(self).reports() == old(self).reports(),
            final(self).reported() == old(self).told(seq![clean]),
    {
        match &mut self.state_change {
            Some(f) => {
                call_state_change(f, clean);
                proof {
                    self.reported@ = self.reported@.push(clean);
                }
            },
            None => {},
        }
    }

    /// Pushes `cmd` on top of the record and executes its `redo` method.
    /// The command is offered to the last command for merging.
    ///
    /// All commands above the active one are removed from the record and returned.
    ///
    /// # Errors
    /// If an error occurs when executing `redo`, the error is returned
    /// together with the command, and the commands stay as they were.
    pub fn push(&mut self, cmd: C) -> (r: core::result::Result<Commands<C>, (C, C::Error)>)
        requires
            old(self).inv(),
        ensures
            final(self).inv(),
            final(self).spec_limit() == old(self).spec_limit(),
            r is Err ==> final(self).commands() == old(self).commands() && final(self).idx() == old(self).idx(),
            r matches Ok(tail) ==> {
                let n = old(self).idx() as int;
                let kept = old(self).commands().take(n);
                &&& tail.remaining() == old(self).commands().skip(n)
                &&& final(self).spec_is_clean()
                &&& {
                    ||| (n > 0 && final(self).commands().len() == n
                        && final(self).commands().take(n - 1) == kept.take(n - 1))
                    ||| (n > 0 && final(self).commands() == kept.take(n - 1))
                    ||| (old(self).spec_limit() == Some(n as usize) && final(self).commands().len() == n
                        && (n > 1 ==> final(self).commands().take(n - 2) == kept.skip(1).take(n - 2)))
                    ||| (old(self).spec_limit() != Some(n as usize) && final(self).commands().len() == n + 1
                        && (n > 0 ==> final(self).commands().take(n - 1) == kept.take(n - 1)))
                }
            },
            r is Ok ==> final(self).reports() == old(self).reports(),
            r is Ok ==> final(self).reported()
                == (if old(self).spec_is_clean() { old(self).reported() } else { old(self).told(seq![true]) }),
            r is Err ==> final(self).reported() == old(self).reported(),
    {
        let mut cmd = cmd;
        let redone = cmd.redo(&mut self.receiver);
        self.push_redone(cmd, redone)
    }

    /// Records `cmd`, whose `redo` was carried out on the receiver with the
    /// outcome `redone`. On failure the error is returned together with the
    /// command and nothing changes; on success the commands above the active
    /// one are cut off and returned, and the command is offered to the last
    /// command for merging, and pushed if it is not merged.
    pub fn push_redone(&mut self, cmd: C, redone: core::result::Result<(), C::Error>)
        -> (r: core::result::Result<Commands<C>, (C, C::Error)>)
        requires
            old(self).inv(),
        ensures
            final(self).inv(),
            final(self).spec_limit() == old(self).spec_limit(),
            r is Err ==> final(self).commands() == old(self).commands() && final(self).idx() == old(self).idx(),
            r matches Ok(tail) ==> {
                let n = old(self).idx() as int;
                let kept = old(self).commands().take(n);
                &&& tail.remaining() == old(self).commands().skip(n)
                &&& final(self).spec_is_clean()
                &&& {
                    ||| (n > 0 && final(self).commands().len() == n
                        && final(self).commands().take(n - 1) == kept.take(n - 1))
                    ||| (n > 0 && final(self).commands() == kept.take(n - 1))
                    ||| (old(self).spec_limit() == Some(n as usize) && final(self).commands().len() == n
                        && (n > 1 ==> final(self).commands().take(n - 2) == kept.skip(1).take(n - 2)))
                    ||| (old(self).spec_limit() != Some(n as usize) && final(self).commands().len() == n + 1
                        && (n > 0 ==> final(self).commands().take(n - 1) == kept.take(n - 1)))
                }
            },
            redone matches Err(e) ==> r matches Err(pair) && pair == (cmd, e) && *final(self) == *old(self),
            redone is Ok ==> r is Ok,
            redone is Ok && old(self).idx() == 0 ==> final(self).commands() == seq![cmd],
            redone is Ok ==> final(self).reports() == old(self).reports(),
            redone is Ok ==> final(self).reported()
                == (if old(self).spec_is_clean() { old(self).reported() } else { old(self).told(seq![true]) }),
            final(self).view_receiver() == old(self).view_receiver(),
    {
        let is_dirty = self.is_dirty();
        let len = self.idx;
        match redone {
            Ok(()) => {},
            Err(e) => return Err((cmd, e)),
        }
        let ghost kept = self.commands@.take(len as int);
        let tail = self.commands.split_off(len);
        let merged = if len > 0 {
            self.commands[len - 1].merge(cmd)
        } else {
            Merge::No(cmd)
        };
        let ghost offered = self.commands@;
        assert(forall|j: int| 0 <= j < len - 1 ==> offered[j] == kept[j]);
        let ghost outcome = merged;
        self.settle_merge(merged);
        proof {
            if outcome is Yes {
                assert(self.commands@.take(len - 1) =~= kept.take(len - 1));
            }
            if outcome is Annul {
                assert(self.commands@ =~= kept.take(len - 1));
            }
            if outcome is No {
                let mid = self.commands@.drop_last();
                assert(self.commands@.take(mid.len() as int) =~= mid);
                if mid.len() + 1 == len && len > 0 && old(self).spec_limit() == Some(len) {
                    assert(len > 1 ==> mid.take(len - 2) =~= kept.skip(1).take(len - 2));
                } else {
                    assert(len > 0 ==> mid.take(len - 1) =~= kept.take(len - 1));
                }
            }
        }
        // The state is always clean after a push; check if it was dirty before.
        if is_dirty {
            self.report(true);
        }
        Ok(Commands { rest: reversed(tail) })
    }

    /// Calls the `redo` method for the active command and sets the next one
    /// as the new active one.
    ///
    /// # Errors
    /// If an error occurs when executing `redo` the error is returned and
    /// the position stays as it was.
    pub fn redo(&mut self) -> (r: core::result::Result<(), C::Error>)
        requires
            old(self).inv(),
        ensures
            Self::redo_step(old(self), final(self), r is Ok),
    {
        if self.idx < self.commands.len() {
            let idx = self.idx;
            let outcome = self.commands[idx].redo(&mut self.receiver);
            return self.redone(outcome);
        }
        Ok(())
    }

    /// Finishes a push, given what the last command answered when the new
    /// one was offered for merging (`Merge::No` with the command itself where
    /// there was no last command); all commands are applied.
    ///
    /// - `Yes`: the last command absorbed the new one; nothing else changes.
    /// - `Annul`: the two cancel out and the last command is dropped.
    /// - `No(c)`: `c` is pushed; at the limit the oldest command is dropped.
    pub fn settle_merge(&mut self, outcome: Merge<C>)
        requires
            old(self).inv(),
            old(self).spec_is_clean(),
            !(outcome is No) ==> old(self).commands().len() > 0,
        ensures
            final(self).inv(),
            final(self).spec_is_clean(),
            final(self).spec_limit() == old(self).spec_limit(),
            final(self).view_receiver() == old(self).view_receiver(),
            final(self).reports() == old(self).reports(),
            final(self).reported() == old(self).reported(),
            outcome is Yes ==> *final(self) == *old(self),
            outcome is Annul ==> final(self).commands() == old(self).commands().drop_last(),
            outcome matches Merge::No(c) ==> {
                let n = old(self).commands().len();
                &&& n > 0 && old(self).spec_limit() == Some(n as usize) ==>
                    final(self).commands() == old(self).commands().skip(1).push(c)
                &&& !(n > 0 && old(self).spec_limit() == Some(n as usize)) ==>
                    final(self).commands() == old(self).commands().push(c)
            },
    {
        let len = self.idx;
        match outcome {
            Merge::Yes => {},
            Merge::Annul => {
                self.commands.pop();
                self.idx = len - 1;
            },
            Merge::No(cmd) => {
                let at_limit = match self.limit {
                    Some(limit) => len == limit,
                    None => false,
                };
                if at_limit && len > 0 {
                    let ghost before = self.commands@;
                    self.commands.remove(0);
                    assert(self.commands@ =~= before.skip(1));
                }
                self.commands.push(cmd);
                self.idx = self.commands.len();
            },
        }
    }

    /// Finishes a redo whose command's `redo` had the outcome `outcome`. On
    /// failure the error is handed back and nothing changes; on success the
    /// next command becomes the active one, and the state-change function is
    /// told when the record became clean.
    pub fn redone(&mut self, outcome: core::result::Result<(), C::Error>) -> (r: core::result::Result<(), C::Error>)
        requires
            old(self).inv(),
            old(self).idx() < old(self).commands().len(),
        ensures
            outcome matches Err(e) ==> r == core::result::Result::<(), C::Error>::Err(e) && *final(self) == *old(self),
            outcome is Ok ==> r is Ok && Self::redo_step(old(self), final(self), true),
    {
        match outcome {
            Ok(()) => {},
            Err(e) => return Err(e),
        }
        let is_dirty = self.is_dirty();
        let len = self.commands.len();
        assert(self.idx < len);
        self.idx = self.idx + 1;
        // Check if the state went from dirty to clean.
        if is_dirty && self.is_clean() {
            self.report(true);
        }
        Ok(())
    }

    /// Sets the previous command as the active one and calls its `undo` method.
    ///
    /// # Errors
    /// If an error occurs when executing `undo` the error is returned; the
    /// position has already moved back.
    pub fn undo(&mut self) -> (r: core::result::Result<(), C::Error>)
        requires
            old(self).inv(),
        ensures
            Self::undo_step(old(self), final(self), r is Ok),
    {
        if self.idx > 0 {
            let is_clean = self.is_clean();
            self.idx = self.idx - 1;
            let idx = self.idx;
            let outcome = self.commands[idx].undo(&mut self.receiver);
            return self.undone(is_clean, outcome);
        }
        Ok(())
    }

    /// Finishes an undo whose command's `undo` had the outcome `outcome`; the
    /// position has already moved back, and `was_clean` says whether the
    /// record was clean before. On failure the error is handed back and
    /// nothing changes; on success the state-change function is told when
    /// the record became dirty.
    pub fn undone(&mut self, was_clean: bool, outcome: core::result::Result<(), C::Error>)
        -> (r: core::result::Result<(), C::Error>)
        requires
            old(self).inv(),
            old(self).idx() < old(self).commands().len(),
        ensures
            outcome matches Err(e) ==> r == core::result::Result::<(), C::Error>::Err(e) && *final(self) == *old(self),
            outcome is Ok ==> {
                &&& r is Ok
                &&& final(self).inv()
                &&& final(self).commands() == old(self).commands()
                &&& final(self).idx() == old(self).idx()
                &&& final(self).spec_limit() == old(self).spec_limit()
                &&& final(self).view_receiver() == old(self).view_receiver()
                &&& final(self).reports() == old(self).reports()
                &&& final(self).reported() == (if was_clean { old(self).told(seq![false]) } else { old(self).reported() })
            },
    {
        match outcome {
            Ok(()) => {},
            Err(e) => return Err(e),
        }
        // Check if the record went from clean to dirty.
        if was_clean && self.is_dirty() {
            self.report(false);
        }
        Ok(())
    }
}

} // verus!
