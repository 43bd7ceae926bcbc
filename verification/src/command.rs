use vstd::prelude::*;

verus! {

/// A signal the structures send to their slot when their state changes.
#[derive(Clone, Copy, Debug, PartialEq, Eq, Structural)]
pub enum Signal {
    /// Says if the structure can undo.
    Undo(bool),
    /// Says if the structure can redo.
    Redo(bool),
    /// Says if the target is in a saved state.
    Saved(bool),
}

/// What a command decides when a new command is offered to it for merging.
pub enum Merge<C> {
    /// The offered command was absorbed into this one.
    Yes,
    /// The commands were not merged; the offered command is handed back.
    No(C),
    /// The two commands cancel each other out, and both are dropped.
    Annul,
}

/// The result of an operation on a target.
pub type Result<C> = core::result::Result<(), <C as Command>::Error>;

/// Base functionality for all commands.
///
/// Implementations decide how a target is changed, how the change is
/// undone and whether two commands merge. The structures of this crate keep
/// track of which commands are applied and call these methods in order.
pub trait Command: Sized {
    /// The target type.
    type Target;

    /// The error type.
    type Error;

    /// Applies the command on the target.
    fn apply(&mut self, target: &mut Self::Target) -> core::result::Result<(), Self::Error>;

    /// Restores the state of the target as it was before the command was applied.
    fn undo(&mut self, target: &mut Self::Target) -> core::result::Result<(), Self::Error>;

    /// Reapplies the command on the target; applies it again by default.
    fn redo(&mut self, target: &mut Self::Target) -> core::result::Result<(), Self::Error> {
        self.apply(target)
    }

    /// Offers `command` for merging into this command; refuses by default.
    fn merge(&mut self, command: Self) -> (r: Merge<Self>)
        default_ensures
            r == Merge::No(command),
            *final(self) == *old(self),
    {
        Merge::No(command)
    }
}

} // verus!
