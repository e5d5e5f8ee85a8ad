//! The event-source capability: cooperative cancellation flags and the
//! per-tick decision every background poller takes.

pub mod child;
pub mod directory;
pub mod signals;

use vstd::prelude::*;

verus! {

/// The outcome of one polling tick.
#[derive(Debug, Clone, Copy, PartialEq, Eq, Structural)]
pub enum TickAction {
    /// The source was cancelled (or delivery failed): the poller exits.
    Stop,
    /// The watched condition was observed: emit the event, keep polling.
    Emit,
    /// Nothing happened: sleep until the next tick.
    Idle,
}

/// The tick rule shared by every poller: a cancelled poller stops before it
/// looks at anything else; an active one emits exactly when its condition
/// holds.
pub open spec fn spec_tick(active: bool, condition: bool) -> TickAction {
    if !active {
        TickAction::Stop
    } else if condition {
        TickAction::Emit
    } else {
        TickAction::Idle
    }
}

/// Decides one polling tick from the cancellation flag and the observed
/// condition.
pub fn tick_action(active: bool, condition: bool) -> (r: TickAction)
    ensures
        r == spec_tick(active, condition),
{
    if !active {
        TickAction::Stop
    } else if condition {
        TickAction::Emit
    } else {
        TickAction::Idle
    }
}

/// Law: once a source is cancelled, the next tick of its poller stops it and
/// emits nothing — so after one full polling interval no further events come
/// from that source.
pub proof fn lemma_cancelled_tick_stops(condition: bool)
    ensures
        spec_tick(false, condition) == TickAction::Stop,
        spec_tick(false, condition) != TickAction::Emit,
{
}

/// An asynchronous condition source. The real background poller and channel
/// live outside the library; this capability models the cancellation flag
/// they share with the source object.
pub trait EventSource: Sized {
    /// Whether the flag currently handed to a poller is active.
    spec fn spec_active(&self) -> bool;

    /// Arms the source: the flag a freshly spawned poller reads is active.
    fn event_attach(&mut self)
        ensures
            final(self).spec_active(),
    ;

    /// Cancels the attached pollers: they observe the cleared flag and stop
    /// within one polling interval.
    fn event_cancel(&mut self)
        ensures
            !final(self).spec_active(),
    ;

    /// Detaches the attached pollers: the source is handed a fresh active
    /// flag, so cancelling or dropping it no longer affects them.
    fn event_detach(&mut self)
        ensures
            final(self).spec_active(),
    ;
}

} // verus!
