//! Events, the queue that carries them, and the listener side of a module.

use crate::modules::engine::Engine;
use crate::modules::registry::{ModuleId, Registry};
use vstd::prelude::*;

verus! {

/// Identifies what an event is about. Modules subscribe to kinds, not to
/// single events.
pub type EventKind = u64;

/// Anything that can be broadcast through the engine.
pub trait Event: Sized {
    /// The kind this event belongs to. Left open where an event type does
    /// not say.
    open spec fn kind_spec(&self) -> EventKind {
        arbitrary()
    }

    fn kind(&self) -> (kind: EventKind)
        ensures
            kind == self.kind_spec(),
    ;
}

/// The reacting side of a module: how its state answers to an event.
///
/// A handler has exclusive access to its own state and to the event. It may
/// look at other modules through `peers`, and it answers by pushing events
/// into `queue`, which it always receives empty. It may change what the
/// event carries, not what kind of event it is.
pub trait Listener<E: Event>: Sized {
    /// Says which outcomes a run of the handler may have: from the state
    /// `before` and the event as received to the state `after`, the event as
    /// left behind and the events pushed, in push order. Where a module does
    /// not say, every outcome is held possible.
    open spec fn handled(
        before: Self,
        event: E,
        peers: Registry<Self>,
        after: Self,
        event_after: E,
        pushed: Seq<E>,
    ) -> bool {
        true
    }

    fn on_event(&mut self, event: &mut E, queue: &mut EventQueue<E>, peers: &Engine<Self>)
        requires
            old(queue)@.len() == 0,
            peers.wf(),
        ensures
            final(event).kind_spec() == old(event).kind_spec(),
            Self::handled(
                *old(self),
                *old(event),
                peers@,
                *final(self),
                *final(event),
                final(queue)@,
            ),
    ;
}

/// Events waiting to be delivered, oldest first.
pub struct EventQueue<E> {
    inner: Vec<E>,
}

impl<E> View for EventQueue<E> {
    type V = Seq<E>;

    closed spec fn view(&self) -> Seq<E> {
        self.inner@
    }
}

impl<E> EventQueue<E> {
    pub fn new() -> (queue: Self)
        ensures
            queue@ == Seq::<E>::empty(),
    {
        EventQueue { inner: Vec::new() }
    }

    /// Takes every waiting event out, oldest first, and leaves the queue empty.
    pub fn drain(&mut self) -> (events: Vec<E>)
        ensures
            events@ == old(self)@,
            final(self)@ == Seq::<E>::empty(),
    {
        let mut events: Vec<E> = Vec::new();
        std::mem::swap(&mut self.inner, &mut events);
        events
    }

    /// Joins two queues: the events of `self` come after those of `other`.
    pub fn merge_after(self, other: Self) -> (merged: Self)
        ensures
            merged@ == other@ + self@,
    {
        let mut head = other.inner;
        let mut tail = self.inner;
        head.append(&mut tail);
        EventQueue { inner: head }
    }

    pub fn is_empty(&self) -> (empty: bool)
        ensures
            empty == (self@.len() == 0),
    {
        self.inner.is_empty()
    }

    /// Pushes a new event into the queue to be dispatched after those
    /// already waiting.
    pub fn push(&mut self, event: E)
        ensures
            final(self)@ == old(self)@.push(event),
    {
        self.inner.push(event)
    }
}

/// A fixed declaration of interest: for each module of an engine, the kinds
/// of event it reacts to, in the order it names them. Naming a kind twice is
/// allowed and means the same as naming it once.
///
/// The declaration is made once, on a type of its own, and never changes:
/// the engine reads it when it loads a module.
pub trait EventList<M> {
    /// The kinds the module `id` declares. Left open where a declaration
    /// does not say.
    open spec fn kinds(id: ModuleId) -> Seq<EventKind> {
        arbitrary()
    }

    fn raw_listeners(id: ModuleId) -> (kinds: Vec<EventKind>)
        ensures
            kinds@ == Self::kinds(id),
    ;
}

/// The declaration of modules that listen to nothing.
impl<M> EventList<M> for () {
    open spec fn kinds(id: ModuleId) -> Seq<EventKind> {
        Seq::empty()
    }

    fn raw_listeners(id: ModuleId) -> (kinds: Vec<EventKind>) {
        Vec::new()
    }
}

} // verus!
