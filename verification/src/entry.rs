use vstd::prelude::*;

verus! {

/// Calls `chrono::Utc::now` and reads the instant it returns through
/// `DateTime::timestamp` (non-leap seconds since the UNIX epoch) and
/// `DateTime::timestamp_subsec_nanos` (nanoseconds since the last second
/// boundary). The instant depends on the system clock, so of the seconds
/// nothing is claimed; of the nanoseconds chrono's documentation promises
/// less than two seconds' worth, leap seconds included, which is claimed here.
/// (`chrono::DateTime` is bounded by chrono's `TimeZone` trait and cannot be
/// declared to Verus, so both readings of the one instant are taken here.)
#[verifier::external_body]
fn utc_now_parts() -> (parts: (i64, u32))
    ensures
        parts.1 < 2_000_000_000,
{
    let now = chrono::Utc::now();
    (now.timestamp(), now.timestamp_subsec_nanos())
}

/// A point in time: seconds since the UNIX epoch and the nanoseconds after them.
#[derive(Clone, Copy, Debug, PartialEq, Eq, Structural)]
pub struct Timestamp {
    /// Non-leap seconds since the UNIX epoch.
    pub secs: i64,
    /// Nanoseconds since the last second boundary.
    pub nanos: u32,
}

impl Timestamp {
    /// Strict chronological order: by seconds, then by nanoseconds.
    pub open spec fn before(self, other: Timestamp) -> bool {
        self.secs < other.secs || (self.secs == other.secs && self.nanos < other.nanos)
    }

    /// Returns `true` if `self` is strictly earlier than `other`.
    pub fn is_before(&self, other: &Timestamp) -> (b: bool)
        ensures
            b == self.before(*other),
    {
        self.secs < other.secs || (self.secs == other.secs && self.nanos < other.nanos)
    }

    /// Returns the current time, as the system clock gives it.
    pub fn now() -> (t: Timestamp)
        ensures
            t.nanos < 2_000_000_000,
    {
        let (secs, nanos) = utc_now_parts();
        Timestamp { secs, nanos }
    }
}

/// A position in a history: a branch and a position in it.
#[derive(Clone, Copy, Debug, PartialEq, Eq, Hash, Structural)]
pub struct At {
    /// The branch.
    pub branch: usize,
    /// The position in the branch.
    pub current: usize,
}

impl At {
    /// The position `current` of `branch`.
    pub open spec fn new_spec(branch: usize, current: usize) -> At {
        At { branch, current }
    }

    /// Returns the position `current` of `branch`.
    pub fn new(branch: usize, current: usize) -> (at: At)
        ensures
            at == At::new_spec(branch, current),
    {
        At { branch, current }
    }
}

/// A command together with the time it was applied.
pub struct Entry<C> {
    /// The command.
    pub command: C,
    /// When the command was applied.
    pub timestamp: Timestamp,
}

impl<C> Entry<C> {
    /// Wraps `command`, stamped with the current time.
    pub fn new(command: C) -> (entry: Entry<C>)
        ensures
            entry.command == command,
    {
        Entry { command, timestamp: Timestamp::now() }
    }
}

} // verus!
