//! What a display of a record or a history shows, line by line.

use vstd::prelude::*;
use crate::entry::{At, Entry};

verus! {

/// Which parts of each line a display shows.
#[derive(Clone, Copy, Debug, PartialEq, Eq, Hash, Structural)]
pub struct Format {
    /// Show colored output.
    pub colored: bool,
    /// Show the current position.
    pub current: bool,
    /// Show detailed output: the time of each command, and its text on a
    /// line of its own.
    pub detailed: bool,
    /// Show the position of each command.
    pub position: bool,
    /// Show the saved position.
    pub saved: bool,
}

impl Format {
    /// Every part is shown.
    pub open spec fn all_on() -> Format {
        Format { colored: true, current: true, detailed: true, position: true, saved: true }
    }

    /// Returns a format that shows every part.
    pub fn new() -> (f: Format)
        ensures
            f == Format::all_on(),
    {
        Format { colored: true, current: true, detailed: true, position: true, saved: true }
    }
}

impl Default for Format {
    fn default() -> (f: Format)
        ensures
            f == Format::all_on(),
    {
        Format::new()
    }
}

/// One line of a display, top to bottom.
pub enum Row<'a, C> {
    /// The line of the command that leads to position `at`, or of the start
    /// of the branch when there is no command; `level` branches deep.
    /// `current` and `saved` tell whether `at` is the current or the saved
    /// position.
    Line {
        at: At,
        level: usize,
        entry: Option<&'a Entry<C>>,
        current: bool,
        saved: bool,
    },
    /// The line on which a branch splits off, `level` branches deep.
    Split { level: usize },
}

} // verus!
