//! An archive of commands.

use vstd::prelude::*;
use crate::command::{Command, Result, Signal};
use crate::history::History;

verus! {

/// An archive of commands.
///
/// Built on a history, an archive remembers in which branch each step was
/// taken, and undoes and redoes along that walk: undoing can bring back a
/// branch that was left.
pub struct Archive<C: Command, F> {
    current: usize,
    branches: Vec<usize>,
    history: History<C, F>,
}

impl<C: Command, F> Archive<C, F> {
    /// The history the archive walks in.
    pub closed spec fn history(&self) -> History<C, F> {
        self.history
    }

    /// The branches of the steps taken, oldest first.
    pub closed spec fn steps(&self) -> Seq<usize> {
        self.branches@
    }

    /// The position in the walk.
    pub closed spec fn index(&self) -> usize {
        self.current
    }

    /// Returns a new archive.
    pub fn new(target: C::Target) -> (t: Archive<C, F>)
        ensures
            t.history().inv(),
            t.history().record().view_target() == target,
            t.history().spec_current() == 0,
            t.steps() == Seq::<usize>::empty(),
            t.index() == 0,
    {
        Archive { current: 0, branches: Vec::new(), history: History::new(target) }
    }

    /// Returns a reference to the `target`.
    pub fn target(&self) -> (t: &C::Target)
        ensures
            *t == self.history().record().view_target(),
    {
        self.history.target()
    }

    /// Returns a mutable reference to the `target`.
    ///
    /// This method should **only** be used when doing changes that should not be able to be undone.
    pub fn target_mut(&mut self) -> (t: &mut C::Target)
        requires
            old(self).history().inv(),
        ensures
            *t == old(self).history().record().view_target(),
            final(self).history().record().view_target() == *final(t),
            final(self).history().inv(),
            final(self).history().record().entries() == old(self).history().record().entries(),
            final(self).history().spec_current() == old(self).history().spec_current(),
            final(self).history().same_tree(&old(self).history()),
            final(self).steps() == old(self).steps(),
            final(self).index() == old(self).index(),
    {
        self.history.target_mut()
    }

    /// Consumes the archive, returning the `target`.
    pub fn into_target(self) -> (t: C::Target)
        ensures
            t == self.history().record().view_target(),
    {
        self.history.into_target()
    }
}

impl<C: Command, F: FnMut(Signal)> Archive<C, F> {
    /// Removes all commands from the archive without undoing them.
    pub fn clear(&mut self)
        requires
            old(self).history().inv(),
        ensures
            final(self).history().inv(),
            final(self).history().spec_branch() == 0,
            final(self).history().record().entries().len() == 0,
            final(self).history().spec_current() == 0,
            final(self).steps() == Seq::<usize>::empty(),
            final(self).index() == 0,
    {
        self.current = 0;
        self.branches.clear();
        self.history.clear();
    }

    /// Pushes the command to the top of the archive and executes its `apply` method.
    ///
    /// # Errors
    /// If an error occurs when executing `apply` the error is returned.
    pub fn apply(&mut self, command: C) -> (r: Result<C>)
        requires
            old(self).history().inv(),
        ensures
            History::apply_step(&old(self).history(), &final(self).history(), r is Ok),
            r is Ok ==> final(self).steps() == old(self).steps().push(final(self).history().spec_branch()),
            r is Ok ==> final(self).index() == final(self).steps().len(),
            r is Err ==> final(self).steps() == old(self).steps() && final(self).index() == old(self).index(),
    {
        match self.history.apply(command) {
            Ok(()) => {},
            Err(err) => return Err(err),
        }
        let root = self.history.branch();
        self.branches.push(root);
        self.current = self.branches.len();
        Ok(())
    }

    /// Steps back in the archive: undoes the last step, in the branch it
    /// was taken in, going back to that branch if need be.
    ///
    /// # Errors
    /// If an error occurs when executing `undo` or `redo` the error is returned.
    pub fn undo(&mut self) -> (r: Result<C>)
        requires
            old(self).history().inv(),
            0 < old(self).index() <= old(self).steps().len()
                && old(self).steps()[old(self).index() - 1] != old(self).history().spec_branch()
                ==> old(self).history().branch_at(old(self).steps()[old(self).index() - 1] as int) is Some,
        ensures
            final(self).history().inv(),
            old(self).index() == 0 || old(self).index() > old(self).steps().len() ==> {
                &&& r is Ok
                &&& final(self).history() == old(self).history()
                &&& final(self).steps() == old(self).steps()
                &&& final(self).index() == old(self).index()
            },
            0 < old(self).index() <= old(self).steps().len() ==> {
                let root = old(self).steps()[old(self).index() - 1];
                &&& final(self).index() == old(self).index() - 1
                &&& final(self).steps() == old(self).steps().push(root)
                &&& root == old(self).history().spec_branch() ==>
                    History::undo_step(&old(self).history(), &final(self).history(), r is Ok)
                &&& root != old(self).history().spec_branch() ==> exists|mid: History<C, F>|
                    #[trigger] History::jump_step(&old(self).history(), root, &mid)
                    && History::redo_step(&mid, &final(self).history(), r is Ok)
            },
    {
        if self.current == 0 || self.current > self.branches.len() {
            return Ok(());
        }
        self.current = self.current - 1;
        let root = self.branches[self.current];
        self.branches.push(root);
        if root == self.history.branch() {
            self.history.undo()
        } else {
            self.history.jump_to(root);
            let ghost mid = self.history;
            let r = self.history.redo();
            assert(History::jump_step(&old(self).history(), root, &mid));
            r
        }
    }

    /// Steps forward in the archive: redoes the next step, in the branch it
    /// was taken in, going to that branch if need be. Does nothing one step
    /// before the end of the archive; there must be a step after the
    /// position.
    ///
    /// # Errors
    /// If an error occurs when executing `undo` or `redo` the error is returned.
    pub fn redo(&mut self) -> (r: Result<C>)
        requires
            old(self).history().inv(),
            old(self).index() + 1 < old(self).steps().len()
                && old(self).steps()[old(self).index() + 1] != old(self).history().spec_branch()
                ==> old(self).history().branch_at(old(self).steps()[old(self).index() + 1] as int) is Some,
            old(self).index() + 1 < old(self).steps().len(),
        ensures
            final(self).history().inv(),
            old(self).index() + 2 == old(self).steps().len() ==> {
                &&& r is Ok
                &&& final(self).history() == old(self).history()
                &&& final(self).steps() == old(self).steps()
                &&& final(self).index() == old(self).index()
            },
            old(self).index() + 2 < old(self).steps().len() ==> {
                let root = old(self).steps()[old(self).index() + 1];
                &&& final(self).index() == old(self).index() + 1
                &&& final(self).steps() == old(self).steps().push(root)
                &&& root == old(self).history().spec_branch() ==>
                    History::redo_step(&old(self).history(), &final(self).history(), r is Ok)
                &&& root != old(self).history().spec_branch() ==> exists|mid: History<C, F>|
                    #[trigger] History::undo_step(&old(self).history(), &mid, r is Ok)
                    && (r is Ok ==> History::jump_step(&mid, root, &final(self).history()))
                    && (r is Err ==> final(self).history() == mid)
            },
    {
        if self.current == self.branches.len() - 2 {
            return Ok(());
        }
        self.current = self.current + 1;
        let root = self.branches[self.current];
        self.branches.push(root);
        if root == self.history.branch() {
            self.history.redo()
        } else {
            match self.history.undo() {
                Ok(()) => {},
                Err(err) => {
                    let r: Result<C> = Err(err);
                    assert(History::undo_step(&old(self).history(), &self.history, r is Ok));
                    return r;
                },
            }
            let ghost mid = self.history;
            self.history.jump_to(root);
            let r: Result<C> = Ok(());
            assert(History::undo_step(&old(self).history(), &mid, r is Ok));
            assert(History::jump_step(&mid, root, &self.history));
            r
        }
    }
}

impl<C: Command, F> Default for Archive<C, F>
    where C::Target: Default,
{
    fn default() -> (t: Archive<C, F>)
        ensures
            t.history().inv(),
            t.history().spec_current() == 0,
            t.steps() == Seq::<usize>::empty(),
            t.index() == 0,
    {
        Archive::new(C::Target::default())
    }
}

} // verus!
