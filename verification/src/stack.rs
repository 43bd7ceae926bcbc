//! The command stack.

use vstd::prelude::*;
use crate::command::{Command, Merge};
use crate::result::Error;

pub mod stacks;

pub use self::stacks::{Key, Stacks};

verus! {

/// The command stack.
///
/// The stack is the simplest data structure and works by pushing and
/// popping off commands that modify the `receiver`. Unlike the record, it
/// does not keep the commands that were undone.
pub struct Stack<C: Command> {
    commands: Vec<C>,
    receiver: C::Target,
}

impl<C: Command> Stack<C> {
    /// The commands on the stack, the bottom one first.
    pub closed spec fn commands(&self) -> Seq<C> {
        self.commands@
    }

    /// The receiver.
    pub closed spec fn view_receiver(&self) -> C::Target {
        self.receiver
    }

    /// Creates a new stack.
    pub fn new(receiver: C::Target) -> (s: Stack<C>)
        ensures
            s.commands() == Seq::<C>::empty(),
            s.view_receiver() == receiver,
    {
        Stack { commands: Vec::new(), receiver }
    }

    /// Returns the number of commands in the stack.
    pub fn len(&self) -> (n: usize)
        ensures
            n == self.commands().len(),
    {
        self.commands.len()
    }

    /// Returns `true` if the stack is empty.
    pub fn is_empty(&self) -> (b: bool)
        ensures
            b == (self.commands().len() == 0),
    {
        self.commands.len() == 0
    }

    /// Removes all commands from the stack without undoing them.
    ///
    /// This resets the stack back to its initial state while leaving the receiver unmodified.
    pub fn clear(&mut self)
        ensures
            final(self).commands() == Seq::<C>::empty(),
            final(self).view_receiver() == old(self).view_receiver(),
    {
        self.commands.clear();
    }

    /// `new` is `old` after a command was executed and pushed: merged into
    /// the top command (which may have changed), annulled together with it,
    /// or pushed on top (the top command may have changed when it was offered
    /// the new one for merging).
    pub open spec fn pushed(old: &Self, new: &Self) -> bool {
        let n = old.commands().len() as int;
        ||| {
            &&& n > 0
            &&& new.commands().len() == n
            &&& new.commands().take(n - 1) == old.commands().take(n - 1)
        }
        ||| {
            &&& n > 0
            &&& new.commands() == old.commands().drop_last()
        }
        ||| {
            &&& new.commands().len() == n + 1
            &&& n > 0 ==> new.commands().take(n - 1) == old.commands().take(n - 1)
        }
    }

    /// Popping a command that was pushed without being merged or annulled
    /// leaves as many commands as before the push, the ones below the top
    /// unchanged.
    pub proof fn law_push_then_pop(a: &Self, b: &Self, c: &Self)
        requires
            Self::pushed(a, b),
            b.commands().len() == a.commands().len() + 1,
            c.commands() == b.commands().drop_last(),
        ensures
            c.commands().len() == a.commands().len(),
            a.commands().len() > 0 ==> c.commands().take(a.commands().len() - 1)
                == a.commands().take(a.commands().len() - 1),
    {
        let n = a.commands().len() as int;
        if n > 0 {
            assert(c.commands().take(n - 1) =~= b.commands().take(n - 1));
        }
    }

    /// Pushes the command on the stack and executes its `apply` method. The
    /// command is offered to the top command for merging.
    ///
    /// # Errors
    /// If an error occurs when executing `apply`, the error is returned
    /// together with the command, and the stack keeps its commands.
    pub fn push(&mut self, cmd: C) -> (r: core::result::Result<(), Error<C>>)
        ensures
            r is Err ==> final(self).commands() == old(self).commands(),
            r is Ok ==> Self::pushed(old(self), final(self)),
    {
        let mut cmd = cmd;
        let applied = cmd.apply(&mut self.receiver);
        self.push_applied(cmd, applied)
    }

    /// Records `cmd`, whose `apply` was carried out on the receiver with the
    /// outcome `applied`. On failure the error is returned together with the
    /// command and nothing changes; on success the command is offered to the
    /// top command for merging, and pushed if it is not merged.
    pub fn push_applied(&mut self, cmd: C, applied: core::result::Result<(), C::Error>)
        -> (r: core::result::Result<(), Error<C>>)
        ensures
            applied matches Err(e) ==> r matches Err(err) && err.spec_command() == cmd
                && err.spec_error() == e && *final(self) == *old(self),
            applied is Ok ==> r is Ok && Self::pushed(old(self), final(self)),
            applied is Ok && old(self).commands().len() == 0 ==> final(self).commands() == seq![cmd],
            final(self).view_receiver() == old(self).view_receiver(),
    {
        match applied {
            Ok(()) => {},
            Err(e) => return Err(Error::new(cmd, e)),
        }
        let len = self.commands.len();
        let ghost before = self.commands@;
        let outcome = if len > 0 {
            self.commands[len - 1].merge(cmd)
        } else {
            Merge::No(cmd)
        };
        let ghost offered = self.commands@;
        assert(offered.take(len - 1) =~= before.take(len - 1));
        self.settle_merge(outcome);
        proof {
            if len > 0 {
                assert(self.commands@.take(len - 1) =~= before.take(len - 1));
            }
            if self.commands@.len() + 1 == len {
                assert(self.commands@ =~= before.drop_last());
            }
        }
        Ok(())
    }

    /// Finishes a push, given what the top command answered when the new one
    /// was offered for merging (`Merge::No` with the command itself where
    /// there was no top command).
    ///
    /// - `Yes`: the top command absorbed the new one; nothing else changes.
    /// - `Annul`: the two cancel out and the top command is dropped.
    /// - `No(c)`: `c` is pushed on top.
    pub fn settle_merge(&mut self, outcome: Merge<C>)
        requires
            !(outcome is No) ==> old(self).commands().len() > 0,
        ensures
            final(self).view_receiver() == old(self).view_receiver(),
            outcome is Yes ==> *final(self) == *old(self),
            outcome is Annul ==> final(self).commands() == old(self).commands().drop_last(),
            outcome matches Merge::No(c) ==> final(self).commands() == old(self).commands().push(c),
    {
        match outcome {
            Merge::Yes => {},
            Merge::Annul => {
                self.commands.pop();
            },
            Merge::No(cmd) => {
                self.commands.push(cmd);
            },
        }
    }

    /// Calls the top command's `undo` method and pops it off the stack.
    /// Returns `None` if the stack is empty.
    ///
    /// # Errors
    /// If an error occurs when executing `undo`, the error is returned
    /// together with the command.
    pub fn pop(&mut self) -> (r: Option<core::result::Result<C, Error<C>>>)
        ensures
            old(self).commands().len() == 0 ==> r is None && final(self).commands() == old(self).commands()
                && final(self).view_receiver() == old(self).view_receiver(),
            old(self).commands().len() > 0 ==> r is Some && final(self).commands() == old(self).commands().drop_last(),
    {
        match self.commands.pop() {
            Some(cmd) => {
                let mut cmd = cmd;
                let outcome = cmd.undo(&mut self.receiver);
                Some(Self::popped(cmd, outcome))
            },
            None => None,
        }
    }

    /// The result of popping `cmd`, whose `undo` had the outcome `outcome`:
    /// the command on success, and otherwise the error together with it.
    pub fn popped(cmd: C, outcome: core::result::Result<(), C::Error>) -> (r: core::result::Result<C, Error<C>>)
        ensures
            outcome is Ok ==> r == core::result::Result::<C, Error<C>>::Ok(cmd),
            outcome matches Err(e) ==> r matches Err(err) && err.spec_command() == cmd && err.spec_error() == e,
    {
        match outcome {
            Ok(()) => Ok(cmd),
            Err(e) => Err(Error::new(cmd, e)),
        }
    }

    /// The commands of the stack for display, the top one first.
    pub fn lines(&self) -> (v: Vec<&C>)
        ensures
            v@.len() == self.commands().len(),
            forall|i: int| 0 <= i < v@.len()
                ==> *#[trigger] v@[i] == self.commands()[self.commands().len() - 1 - i],
    {
        let mut v: Vec<&C> = Vec::new();
        let len = self.commands.len();
        let mut i = len;
        while i > 0
            invariant
                i <= len == self.commands@.len(),
                v@.len() == len - i,
                forall|k: int| 0 <= k < v@.len() ==> *#[trigger] v@[k] == self.commands@[len - 1 - k],
            decreases i,
        {
            v.push(&self.commands[i - 1]);
            i -= 1;
        }
        v
    }

    /// Returns a reference to the `receiver`.
    pub fn as_receiver(&self) -> (r: &C::Target)
        ensures
            *r == self.view_receiver(),
    {
        &self.receiver
    }

    /// Consumes the stack, returning the `receiver`.
    pub fn into_receiver(self) -> (r: C::Target)
        ensures
            r == self.view_receiver(),
    {
        self.receiver
    }
}

impl<C: Command> Default for Stack<C>
    where C::Target: Default,
{
    fn default() -> (s: Stack<C>)
        ensures
            s.commands() == Seq::<C>::empty(),
    {
        Stack::new(C::Target::default())
    }
}

} // verus!
