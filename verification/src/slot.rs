use vstd::prelude::*;
use crate::command::Signal;

verus! {

/// Calls the user's slot `f` with `signal` (`FnMut::call_mut` of std).
/// What the slot does is the user's affair: nothing is claimed of it, and
/// its state after the call is left open.
#[verifier::external_body]
fn call_slot<F: FnMut(Signal)>(f: &mut F, signal: Signal) {
    f(signal)
}

/// The slot that receives signals, if one is connected, and the signals
/// sent to it so far.
pub(crate) struct Slot<F> {
    pub(crate) f: Option<F>,
    pub(crate) log: Ghost<Seq<Signal>>,
}

impl<F> Slot<F> {
    /// A slot with nothing connected.
    pub(crate) fn new() -> (slot: Slot<F>)
        ensures
            slot.f is None,
            slot.log@ == Seq::<Signal>::empty(),
    {
        Slot { f: None, log: Ghost(Seq::empty()) }
    }

    /// A slot connected to `f`.
    pub(crate) fn with(f: F) -> (slot: Slot<F>)
        ensures
            slot.f == Some(f),
            slot.log@ == Seq::<Signal>::empty(),
    {
        Slot { f: Some(f), log: Ghost(Seq::empty()) }
    }
}

impl<F: FnMut(Signal)> Slot<F> {
    /// Sends `signal` to the connected function, if there is one.
    pub(crate) fn emit(&mut self, signal: Signal)
        ensures
            final(self).f is Some <==> old(self).f is Some,
            final(self).log@ == (if old(self).f is Some { old(self).log@.push(signal) } else { old(self).log@ }),
    {
        match &mut self.f {
            Some(f) => {
                call_slot(f, signal);
                proof {
                    self.log@ = self.log@.push(signal);
                }
            },
            None => {},
        }
    }

    /// Sends `signal` to the connected function if `cond` holds.
    pub(crate) fn emit_if(&mut self, cond: bool, signal: Signal)
        ensures
            final(self).f is Some <==> old(self).f is Some,
            !cond ==> *final(self) == *old(self),
            final(self).log@ == (if cond && old(self).f is Some { old(self).log@.push(signal) } else { old(self).log@ }),
    {
        if cond {
            self.emit(signal);
        }
    }
}

} // verus!
