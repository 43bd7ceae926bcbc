use vstd::prelude::*;
use crate::command::Command;
use super::Record;

verus! {

/// Configurator for a record.
pub struct Config<C: Command, F> {
    receiver: C::Target,
    capacity: usize,
    limit: usize,
    state_change: Option<F>,
}

impl<C: Command, F> Config<C, F> {
    /// The receiver the record is made with.
    pub closed spec fn view_receiver(&self) -> C::Target {
        self.receiver
    }

    /// The capacity the record is made with.
    pub closed spec fn spec_capacity(&self) -> usize {
        self.capacity
    }

    /// The limit the record is made with; `0` is no limit.
    pub closed spec fn spec_limit(&self) -> usize {
        self.limit
    }

    /// Whether the record is made with a state-change function.
    pub closed spec fn reports(&self) -> bool {
        self.state_change is Some
    }

    /// Creates a configurator.
    pub fn new(receiver: C::Target) -> (c: Config<C, F>)
        ensures
            c.view_receiver() == receiver,
            c.spec_capacity() == 0,
            c.spec_limit() == 0,
            !c.reports(),
    {
        Config { receiver, capacity: 0, limit: 0, state_change: None }
    }

    /// Sets the `capacity` for the record.
    pub fn capacity(self, capacity: usize) -> (c: Config<C, F>)
        ensures
            c.view_receiver() == self.view_receiver(),
            c.spec_capacity() == capacity,
            c.spec_limit() == self.spec_limit(),
            c.reports() == self.reports(),
    {
        Config { capacity, ..self }
    }

    /// Sets the `limit` for the record; `0` is no limit.
    pub fn limit(self, limit: usize) -> (c: Config<C, F>)
        ensures
            c.view_receiver() == self.view_receiver(),
            c.spec_capacity() == self.spec_capacity(),
            c.spec_limit() == limit,
            c.reports() == self.reports(),
    {
        Config { limit, ..self }
    }

    /// Sets what should happen when the state changes.
    pub fn state_change(self, f: F) -> (c: Config<C, F>)
        ensures
            c.view_receiver() == self.view_receiver(),
            c.spec_capacity() == self.spec_capacity(),
            c.spec_limit() == self.spec_limit(),
            c.reports(),
    {
        Config { state_change: Some(f), ..self }
    }

    /// Creates the record.
    pub fn finish(self) -> (r: Record<C, F>)
        ensures
            r.inv(),
            r.commands() == Seq::<C>::empty(),
            r.idx() == 0,
            r.spec_limit() == (if self.spec_limit() == 0 { None } else { Some(self.spec_limit()) }),
            r.view_receiver() == self.view_receiver(),
            r.reports() == self.reports(),
    {
        Record::from_parts(
            Vec::with_capacity(self.capacity),
            self.receiver,
            if self.limit == 0 { None } else { Some(self.limit) },
            self.state_change,
        )
    }
}

} // verus!
