//! The mathematical picture of an engine: which modules are loaded, in what
//! order, what each listens to, and what it means to deliver events to them.

use crate::modules::engine::{Module, ModuleError};
use crate::modules::events::{Event, EventKind, EventList, Listener};
use vstd::prelude::*;

verus! {

/// Identifies a module. An engine holds at most one module per identity.
pub type ModuleId = u64;

/// The count at which the number of handles to a module stops moving.
pub const HANDLE_LIMIT: u64 = 0xffff_ffff_ffff_ffff;

/// One loaded module, as the contracts see it.
pub struct ModuleView<M> {
    pub id: ModuleId,
    /// The module's state, or `None` while its own handler is running on it.
    pub state: Option<M>,
    /// The kinds the module reacts to, each once, in the order it named them.
    pub listeners: Seq<EventKind>,
    /// How many handles to the module are out.
    pub handles: nat,
}

/// The loaded modules, oldest first.
pub struct Registry<M> {
    pub entries: Seq<ModuleView<M>>,
}

/// What is left of `kinds` when only the first mention of each kind is kept.
pub open spec fn distinct(kinds: Seq<EventKind>) -> Seq<EventKind>
    decreases kinds.len(),
{
    if kinds.len() == 0 {
        Seq::empty()
    } else {
        let before = distinct(kinds.drop_last());
        if before.contains(kinds.last()) {
            before
        } else {
            before.push(kinds.last())
        }
    }
}

/// The sequence `ids` with every occurrence of `id` left out.
pub open spec fn without(ids: Seq<ModuleId>, id: ModuleId) -> Seq<ModuleId>
    decreases ids.len(),
{
    if ids.len() == 0 {
        Seq::empty()
    } else {
        let before = without(ids.drop_last(), id);
        if ids.last() == id {
            before
        } else {
            before.push(ids.last())
        }
    }
}

/// The identities of those among `entries` that listen to `kind`, in the
/// order of `entries`.
pub open spec fn subscribers_in<M>(entries: Seq<ModuleView<M>>, kind: EventKind) -> Seq<ModuleId>
    decreases entries.len(),
{
    if entries.len() == 0 {
        Seq::empty()
    } else {
        let before = subscribers_in(entries.drop_last(), kind);
        if entries.last().listens_to(kind) {
            before.push(entries.last().id)
        } else {
            before
        }
    }
}

/// What the declaration of interest `L` says of each module.
pub open spec fn declaration<M, L: EventList<M>>() -> spec_fn(ModuleId) -> Seq<EventKind> {
    |id: ModuleId| L::kinds(id)
}

/// The kinds the module `id` of an engine over `M` declares interest in.
pub open spec fn interests<M: Module>(id: ModuleId) -> Seq<EventKind> {
    <M::ListeningTo as EventList<M>>::kinds(id)
}

impl<M> ModuleView<M> {
    pub open spec fn listens_to(self, kind: EventKind) -> bool {
        self.listeners.contains(kind)
    }

    /// A module as it enters the registry: idle, with no handle out.
    pub open spec fn fresh(id: ModuleId, state: M, interests: Seq<EventKind>) -> Self {
        ModuleView { id, state: Some(state), listeners: distinct(interests), handles: 0 }
    }
}

impl<M> Registry<M> {
    pub open spec fn empty() -> Self {
        Registry { entries: Seq::empty() }
    }

    /// The identities of the loaded modules in load order.
    pub open spec fn ids(self) -> Seq<ModuleId> {
        Seq::new(self.entries.len(), |i: int| self.entries[i].id)
    }

    pub open spec fn is_loaded(self, id: ModuleId) -> bool {
        exists|i: int| 0 <= i < self.entries.len() && (#[trigger] self.entries[i]).id == id
    }

    /// Where the module `id` stands in load order.
    pub open spec fn index_of(self, id: ModuleId) -> int {
        choose|i: int| 0 <= i < self.entries.len() && (#[trigger] self.entries[i]).id == id
    }

    pub open spec fn entry(self, id: ModuleId) -> ModuleView<M> {
        self.entries[self.index_of(id)]
    }

    /// The module is loaded and no handler is running on it.
    pub open spec fn readable(self, id: ModuleId) -> bool {
        self.is_loaded(id) && self.entry(id).state is Some
    }

    pub open spec fn state_of(self, id: ModuleId) -> M {
        self.entry(id).state->Some_0
    }

    pub open spec fn handles_of(self, id: ModuleId) -> nat {
        self.entry(id).handles
    }

    /// No handler is running on any module.
    pub open spec fn quiescent(self) -> bool {
        forall|i: int| 0 <= i < self.entries.len() ==> (#[trigger] self.entries[i]).state is Some
    }

    /// No identity is loaded twice, and no module has a kind twice in its
    /// table.
    pub open spec fn wf(self) -> bool {
        &&& forall|i: int, j: int|
            0 <= i < j < self.entries.len() ==> (#[trigger] self.entries[i]).id != (
            #[trigger] self.entries[j]).id
        &&& forall|i: int|
            0 <= i < self.entries.len() ==> (#[trigger] self.entries[i]).listeners.no_duplicates()
    }

    /// Every loaded module has the table that `declaration` gives for it:
    /// each kind it names, once.
    pub open spec fn follows(self, declaration: spec_fn(ModuleId) -> Seq<EventKind>) -> bool {
        forall|i: int|
            0 <= i < self.entries.len() ==> (#[trigger] self.entries[i]).listeners == distinct(
                declaration(self.entries[i].id),
            )
    }

    /// `after` holds the same modules in the same order, with the same tables
    /// and the same handles out: at most their states differ.
    pub open spec fn keeps_modules(self, after: Self) -> bool {
        &&& after.entries.len() == self.entries.len()
        &&& forall|i: int|
            0 <= i < self.entries.len() ==> {
                &&& (#[trigger] after.entries[i]).id == self.entries[i].id
                &&& after.entries[i].listeners == self.entries[i].listeners
                &&& after.entries[i].handles == self.entries[i].handles
            }
    }

    /// The modules an event of `kind` is delivered to, in delivery order.
    pub open spec fn targets(self, kind: EventKind) -> Seq<ModuleId> {
        subscribers_in(self.entries, kind)
    }

    pub open spec fn with_entry(self, id: ModuleId, entry: ModuleView<M>) -> Self {
        Registry { entries: self.entries.update(self.index_of(id), entry) }
    }

    /// The registry while the handler of `id` runs: its state is out.
    pub open spec fn lent(self, id: ModuleId) -> Self {
        self.with_entry(id, ModuleView { state: None, ..self.entry(id) })
    }

    /// The registry with `state` as the state of `id`.
    pub open spec fn settled(self, id: ModuleId, state: M) -> Self {
        self.with_entry(id, ModuleView { state: Some(state), ..self.entry(id) })
    }

    /// The registry after one more handle to `id` went out.
    pub open spec fn granted(self, id: ModuleId) -> Self {
        let entry = self.entry(id);
        let handles = if entry.handles < HANDLE_LIMIT {
            entry.handles + 1
        } else {
            entry.handles
        };
        self.with_entry(id, ModuleView { handles: handles as nat, ..entry })
    }

    /// The registry after a handle to `id` came back. A count that has
    /// reached the limit no longer moves: the module stays in use for good.
    pub open spec fn released(self, id: ModuleId) -> Self {
        let entry = self.entry(id);
        if self.is_loaded(id) && 0 < entry.handles < HANDLE_LIMIT {
            self.with_entry(id, ModuleView { handles: (entry.handles - 1) as nat, ..entry })
        } else {
            self
        }
    }

    /// The registry once `state` has been registered under `id`: as a new
    /// entry at the end, or, where `id` is loaded already, in place of the
    /// state that was there.
    pub open spec fn installed(self, id: ModuleId, state: M, interests: Seq<EventKind>) -> Self {
        if self.is_loaded(id) {
            self.settled(id, state)
        } else {
            Registry { entries: self.entries.push(ModuleView::fresh(id, state, interests)) }
        }
    }

    /// The registry without the module `id`.
    pub open spec fn removed(self, id: ModuleId) -> Self {
        Registry { entries: self.entries.remove(self.index_of(id)) }
    }

    /// The module can be unloaded: it is loaded, idle, and no handle is out.
    pub open spec fn reclaimable(self, id: ModuleId) -> bool {
        self.readable(id) && self.handles_of(id) == 0
    }
}

impl<M: Module> Registry<M> {
    /// Every loaded module has the table that its declaration of interest
    /// gives: each declared kind, once.
    pub open spec fn declared(self) -> bool {
        self.follows(declaration::<M, M::ListeningTo>())
    }

    /// One handler run: the module `id`, whose table holds the kind of
    /// `event`, reacts to it. The event keeps its kind and nothing else
    /// changes.
    pub open spec fn delivered(
        self,
        id: ModuleId,
        event: M::Event,
        after: Self,
        event_after: M::Event,
        pushed: Seq<M::Event>,
    ) -> bool {
        &&& self.readable(id)
        &&& self.entry(id).listens_to(event.kind_spec())
        &&& event_after.kind_spec() == event.kind_spec()
        &&& after == self.settled(id, after.state_of(id))
        &&& M::handled(
            self.state_of(id),
            event,
            self.lent(id),
            after.state_of(id),
            event_after,
            pushed,
        )
    }

    /// The construction of module `id`, and its registration where the
    /// constructor succeeds, lead from this registry to `after`. `failure` is
    /// what the constructor reported, if it failed; nothing is undone then.
    pub open spec fn constructs(self, id: ModuleId, failure: Option<String>, after: Self) -> bool {
        exists|outcome: Result<M, String>, mid: Self| #[trigger]
            M::constructed(id, self, outcome, mid) && match outcome {
                Ok(state) => failure is None && after == mid.installed(
                    id,
                    state,
                    interests::<M>(id),
                ),
                Err(cause) => failure == Some(cause) && after == mid,
            }
    }

    /// Asking for a handle to `id`, with construction where the module is
    /// absent, leads to `after` and to `result`: the module the handle is
    /// for, or the failure.
    pub open spec fn depends(
        self,
        id: ModuleId,
        result: Result<ModuleId, ModuleError>,
        after: Self,
    ) -> bool {
        if self.is_loaded(id) {
            result == Ok::<ModuleId, ModuleError>(id) && after == self.granted(id)
        } else {
            match result {
                Ok(module) => module == id && exists|mid: Self| #[trigger]
                    self.constructs(id, None, mid) && after == mid.granted(id),
                Err(ModuleError::InitError(cause)) => self.constructs(id, Some(cause), after),
                Err(_) => false,
            }
        }
    }

    /// Loading `id` afresh leads to `after` and to `result`.
    pub open spec fn loads(
        self,
        id: ModuleId,
        result: Result<ModuleId, ModuleError>,
        after: Self,
    ) -> bool {
        if self.is_loaded(id) {
            result == Err::<ModuleId, ModuleError>(ModuleError::AlreadyExist) && after == self
        } else {
            self.depends(id, result, after)
        }
    }

    /// The event goes to each of `targets` once, in order. Each handler sees
    /// the event as the one before left it; `pushed` collects what they
    /// pushed, in push order: what the last target pushed stands at its end.
    pub open spec fn broadcast(
        self,
        targets: Seq<ModuleId>,
        event: M::Event,
        after: Self,
        event_after: M::Event,
        pushed: Seq<M::Event>,
    ) -> bool
        decreases targets.len(),
    {
        if targets.len() == 0 {
            after == self && event_after == event && pushed == Seq::<M::Event>::empty()
        } else {
            exists|mid: Self, event_mid: M::Event, cut: int|
                {
                    &&& 0 <= cut <= pushed.len()
                    &&& self.broadcast(
                        targets.drop_last(),
                        event,
                        mid,
                        event_mid,
                        pushed.take(cut),
                    )
                    &&& #[trigger] mid.delivered(
                        targets.last(),
                        event_mid,
                        after,
                        event_after,
                        pushed.skip(cut),
                    )
                }
        }
    }

    /// The event goes to exactly the modules that listen to its kind, in
    /// load order.
    pub open spec fn dispatched(self, event: M::Event, after: Self, pushed: Seq<M::Event>) -> bool {
        exists|event_after: M::Event| #[trigger]
            self.broadcast(self.targets(event.kind_spec()), event, after, event_after, pushed)
    }

    /// One round: every event of `batch` is dispatched, in order, and `next`
    /// collects what the handlers pushed, in push order.
    pub open spec fn round(self, batch: Seq<M::Event>, after: Self, next: Seq<M::Event>) -> bool
        decreases batch.len(),
    {
        if batch.len() == 0 {
            after == self && next == Seq::<M::Event>::empty()
        } else {
            exists|mid: Self, cut: int|
                {
                    &&& 0 <= cut <= next.len()
                    &&& self.round(batch.drop_last(), mid, next.take(cut))
                    &&& #[trigger] mid.dispatched(batch.last(), after, next.skip(cut))
                }
        }
    }

    /// `count` rounds lead from this registry with `pending` to `after` with
    /// `next`, none of them on an empty batch.
    pub open spec fn rounds(
        self,
        pending: Seq<M::Event>,
        count: nat,
        after: Self,
        next: Seq<M::Event>,
    ) -> bool
        decreases count,
    {
        if count == 0 {
            after == self && next == pending
        } else {
            exists|mid: Self, batch: Seq<M::Event>|
                {
                    &&& self.rounds(pending, (count - 1) as nat, mid, batch)
                    &&& batch.len() > 0
                    &&& #[trigger] mid.round(batch, after, next)
                }
        }
    }

    /// Delivery of `pending` has run to its end and left `after`.
    pub open spec fn ran(self, pending: Seq<M::Event>, after: Self) -> bool {
        exists|count: nat| #[trigger]
            self.rounds(pending, count, after, Seq::<M::Event>::empty())
    }

    /// Whatever the handlers do within what `handled` allows, delivery of
    /// `pending` is over after at most `limit` rounds.
    pub open spec fn settles_within(self, pending: Seq<M::Event>, limit: nat) -> bool
        decreases limit,
    {
        pending.len() == 0 || (limit > 0 && forall|after: Self, next: Seq<M::Event>| #[trigger]
            self.round(pending, after, next) ==> after.settles_within(
                next,
                (limit - 1) as nat,
            ))
    }

    /// Delivery of `pending` comes to an end.
    pub open spec fn settles(self, pending: Seq<M::Event>) -> bool {
        exists|limit: nat| self.settles_within(pending, limit)
    }
}

} // verus!
