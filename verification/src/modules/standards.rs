//! Often used events, for compatibility between modules.

use crate::modules::engine::{Engine, Module};
use crate::modules::events::{Event, EventKind};
use vstd::prelude::*;

verus! {

/// The kind of the start event.
pub const START_EVENT: EventKind = 2;

/// The kind of the shutdown event.
pub const SHUTDOWN_EVENT: EventKind = 3;

/// Events that have a "start of day" event among them.
pub trait StartEvent: Event {
    open spec fn start_spec() -> Self {
        arbitrary()
    }

    /// The event that tells modules that the engine has started.
    fn start() -> (event: Self)
        ensures
            event == Self::start_spec(),
    ;
}

/// Events that have an "end of day" event among them.
pub trait ShutdownEvent: Event {
    open spec fn shutdown_spec() -> Self {
        arbitrary()
    }

    /// The event that tells modules that the engine is about to stop.
    fn shutdown() -> (event: Self)
        ensures
            event == Self::shutdown_spec(),
    ;
}

impl<M: Module> Engine<M> where M::Event: StartEvent {
    /// Dispatch the start event to all subscribed modules and continue
    /// dispatching events until none is left.
    pub fn start(&mut self)
        requires
            old(self).wf(),
            old(self)@.quiescent(),
            old(self)@.settles(seq![M::Event::start_spec()]),
        ensures
            final(self).wf(),
            final(self)@.quiescent(),
            old(self)@.keeps_modules(final(self)@),
            old(self)@.declared() ==> final(self)@.declared(),
            old(self)@.ran(seq![M::Event::start_spec()], final(self)@),
    {
        self.run_with(M::Event::start())
    }
}

} // verus!
