use vstd::prelude::*;
use crate::command::Command;

verus! {

/// An error which holds the command that caused it.
pub struct Error<C: Command> {
    command: C,
    error: C::Error,
}

impl<C: Command> Error<C> {
    /// The command that caused the error.
    pub closed spec fn spec_command(&self) -> C {
        self.command
    }

    /// The error the command gave.
    pub closed spec fn spec_error(&self) -> C::Error {
        self.error
    }

    /// The error `error`, caused by `command`.
    pub(crate) fn new(command: C, error: C::Error) -> (e: Error<C>)
        ensures
            e.spec_command() == command,
            e.spec_error() == error,
    {
        Error { command, error }
    }

    /// Returns a reference to the command that caused the error.
    pub fn command(&self) -> (c: &C)
        ensures
            *c == self.spec_command(),
    {
        &self.command
    }

    /// Returns the command that caused the error.
    pub fn into_command(self) -> (c: C)
        ensures
            c == self.spec_command(),
    {
        self.command
    }

    /// Returns a reference to the error the command gave.
    pub fn error(&self) -> (e: &C::Error)
        ensures
            *e == self.spec_error(),
    {
        &self.error
    }
}

} // verus!
