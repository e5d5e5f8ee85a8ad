//! The event kinds that flow over the supervisor's channel and the reaction
//! the dispatch loop owes to each of them.

use vstd::prelude::*;
use std::sync::mpsc;
use std::sync::mpsc::{Receiver, Sender};

verus! {

/// The sending half of the event channel, declared so it can stand in
/// signatures; the library claims nothing about it.
#[verifier::external_type_specification]
#[verifier::external_body]
#[verifier::reject_recursive_types(T)]
pub struct ExSender<T>(Sender<T>);

/// The receiving half of the event channel, declared so it can stand in
/// signatures; the library claims nothing about it.
#[verifier::external_type_specification]
#[verifier::external_body]
#[verifier::reject_recursive_types(T)]
pub struct ExReceiver<T>(Receiver<T>);

/// Exit status reported after a trapped termination signal.
pub const EXIT_SIGNAL: i32 = 0;

/// Exit status reported after the supervised process died unexpectedly.
pub const EXIT_CHILD_DEATH: i32 = 1;

/// An event observed by one of the background pollers.
#[derive(Debug, Clone, Copy, PartialEq, Eq, PartialOrd, Ord, Hash, Structural)]
pub enum Event {
    /// The fragment directory's matching content changed.
    Directory,
    /// A termination signal was trapped.
    Signal,
    /// The supervised process exited.
    Child,
}

impl Event {
    /// Relies on std::sync::mpsc::channel: creates the connected
    /// sender/receiver pair of the shared event stream. Delivery order and
    /// blocking behaviour stay with std; nothing is claimed of them.
    #[verifier::external_body]
    pub fn make_channels() -> (Sender<Event>, Receiver<Event>) {
        mpsc::channel()
    }
}

/// What the dispatch loop must do in reaction to an event.
#[derive(Debug, Clone, Copy, PartialEq, Eq, Structural)]
pub enum Reaction {
    /// Reassemble the configuration and restart the supervised process.
    Reload,
    /// Terminate the whole program with the given exit status.
    Exit(i32),
}

/// The dispatch rule: a directory change reloads; a signal terminates with
/// status `EXIT_SIGNAL`; an unexpected child death terminates with status
/// `EXIT_CHILD_DEATH`.
pub open spec fn spec_dispatch(e: Event) -> Reaction {
    match e {
        Event::Directory => Reaction::Reload,
        Event::Signal => Reaction::Exit(EXIT_SIGNAL),
        Event::Child => Reaction::Exit(EXIT_CHILD_DEATH),
    }
}

/// Decides the reaction to one received event.
pub fn dispatch(e: Event) -> (r: Reaction)
    ensures
        r == spec_dispatch(e),
{
    match e {
        Event::Directory => Reaction::Reload,
        Event::Signal => Reaction::Exit(EXIT_SIGNAL),
        Event::Child => Reaction::Exit(EXIT_CHILD_DEATH),
    }
}

/// The two terminal reactions carry distinct exit codes, so the cause of a
/// shutdown is always visible in the reported status.
pub proof fn lemma_exit_codes_distinct()
    ensures
        spec_dispatch(Event::Signal) != spec_dispatch(Event::Child),
{
}

} // verus!
