//! High-level undo-redo functionality.
//!
//! An implementation of the command pattern: all modifications of a target
//! are made by commands, each of which knows how to undo the change it
//! applies. The structures of this crate keep those commands and apply, undo
//! and redo them in order.

pub mod command;

pub use command::{Command, Merge, Result, Signal};
pub mod entry;
pub mod format;

pub use entry::{At, Entry, Timestamp};
mod slot;
pub mod record;

pub use record::Record;
pub mod history;

pub use history::History;
pub mod timeline;

pub use timeline::Timeline;
pub mod archive;

pub use archive::Archive;
pub mod result;

pub use result::Error;
pub mod stack;

pub use stack::{Key, Stack, Stacks};
pub mod receiver;
pub mod group;

pub use group::{Group, GroupBuilder};
