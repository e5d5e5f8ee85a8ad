//! The child-death source. The 100 ms polling thread and the non-blocking
//! liveness probe of the OS process live outside the library; here stands the
//! source's cancellation state.

use vstd::prelude::*;
use crate::events::EventSource;

verus! {

/// A source that emits when the supervised process has been observed to have
/// exited. Once the process is dead every later tick keeps observing the exit
/// and emits again; the dispatch loop terminates the program on the first
/// event, which is why no suppression is needed.
pub struct ChildEventSource {
    /// Whether the flag currently shared with the poller is active.
    active: bool,
}

impl ChildEventSource {
    /// Creates a new child process event source with an active flag.
    pub fn new() -> (r: Self)
        ensures
            r.spec_active(),
    {
        ChildEventSource { active: true }
    }
}

impl EventSource for ChildEventSource {
    closed spec fn spec_active(&self) -> bool {
        self.active
    }

    fn event_attach(&mut self) {
        self.active = true;
    }

    fn event_cancel(&mut self) {
        self.active = false;
    }

    fn event_detach(&mut self) {
        self.active = true;
    }
}

} // verus!
