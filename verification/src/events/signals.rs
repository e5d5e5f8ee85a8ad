//! The termination-signal source. Trapping the OS signals and the 100 ms
//! polling thread live outside the library; here stand the source's
//! cancellation state and the flag-consuming decision of each tick.

use vstd::prelude::*;
use crate::events::EventSource;

verus! {

/// A source that emits when a trapped termination signal has been observed.
pub struct SignalEventSource {
    /// Whether the flag currently shared with the poller is active.
    active: bool,
}

impl SignalEventSource {
    /// Creates a new signal event source with an active flag.
    pub fn new() -> (r: Self)
        ensures
            r.spec_active(),
    {
        SignalEventSource { active: true }
    }
}

impl EventSource for SignalEventSource {
    closed spec fn spec_active(&self) -> bool {
        self.active
    }

    fn event_attach(&mut self) {
        self.active = true;
    }

    fn event_cancel(&mut self) {
        self.active = false;
    }

    fn event_detach(&mut self) {
        self.active = true;
    }
}

/// Consumes the trapped-signal flag: reads it and clears it in one step, so
/// several signals arriving within one tick coalesce into a single emission.
pub fn take_signal_flag(flag: &mut bool) -> (was: bool)
    ensures
        *final(flag) == false,
        was == *old(flag),
{
    let was = *flag;
    *flag = false;
    was
}

} // verus!
