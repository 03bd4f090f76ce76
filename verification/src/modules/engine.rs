//! The engine: it owns the loaded modules, hands out handles to them and
//! keeps the index of who listens to what.

use crate::modules::events::{Event, EventKind, EventList, EventQueue, Listener};
use crate::modules::lemmas::{
    lemma_broadcast_extend, lemma_declared_kept, lemma_distinct_no_duplicates, lemma_index_of, lemma_round_extend,
    lemma_subscribers_are_listeners, lemma_subscribers_remove, lemma_subscribers_same_tables,
    lemma_without_absent, lemma_without_gone,
};
use crate::modules::registry::{
    declaration, distinct, interests, without, ModuleId, ModuleView, Registry, HANDLE_LIMIT,
};
use std::collections::HashMap;
use vstd::prelude::*;

verus! {

/// Why an engine operation on a module did not go through.
#[derive(Debug)]
pub enum ModuleError {
    /// The module's constructor reported a failure, described by the text.
    InitError(String),
    /// The engine can't support two instances of the same module.
    AlreadyExist,
    /// The target module could not be found.
    NotFound,
    /// The target module is in use and thus can't be unloaded.
    InUse,
}

impl ModuleError {
    /// What the error says, for a reader.
    pub open spec fn message_of(self) -> Seq<char> {
        match self {
            ModuleError::InitError(_) => "Failed to initialize module"@,
            ModuleError::AlreadyExist => "The engine can't support two instances of the same module"@,
            ModuleError::NotFound => "The target module could not be found"@,
            ModuleError::InUse => "The target module is in use and thus can't be unloaded"@,
        }
    }

    /// What the error says, for a reader.
    pub fn message(&self) -> (text: &'static str)
        ensures
            text@ == self.message_of(),
    {
        match self {
            ModuleError::InitError(_) => "Failed to initialize module",
            ModuleError::AlreadyExist => "The engine can't support two instances of the same module",
            ModuleError::NotFound => "The target module could not be found",
            ModuleError::InUse => "The target module is in use and thus can't be unloaded",
        }
    }
}

/// A piece of state that the engine can construct, keep and deliver events
/// to. One type stands for all the modules of an engine; `id` tells them
/// apart.
pub trait Module: Listener<Self::Event> {
    /// The events the modules of this engine exchange.
    type Event: Event;

    /// Which kinds of event each module of this engine reacts to.
    type ListeningTo: EventList<Self>;

    /// Says which outcomes the construction of module `id` may have: the
    /// state or the failure it ends in, and the registry it leaves behind.
    /// Where a module does not say, every outcome is held possible.
    open spec fn constructed(
        id: ModuleId,
        before: Registry<Self>,
        outcome: Result<Self, String>,
        after: Registry<Self>,
    ) -> bool {
        true
    }

    /// Constructs the state of module `id`. The constructor may use the
    /// engine, most often to ask for the modules it depends on.
    fn new(id: ModuleId, ctx: &mut Engine<Self>) -> (outcome: Result<Self, String>)
        requires
            old(ctx).wf(),
        ensures
            final(ctx).wf(),
            old(ctx)@.quiescent() ==> final(ctx)@.quiescent(),
            old(ctx)@.follows(declaration::<Self, Self::ListeningTo>()) ==> final(ctx)@.follows(
                declaration::<Self, Self::ListeningTo>(),
            ),
            Self::constructed(id, old(ctx)@, outcome, final(ctx)@),
    ;
}

/// One entry of the engine's registry: a module's state together with the
/// table of kinds it reacts to.
pub(crate) struct AnyModule<M> {
    id: ModuleId,
    state: Option<M>,
    listeners: Vec<EventKind>,
    handles: u64,
}

impl<M> View for AnyModule<M> {
    type V = ModuleView<M>;

    closed spec fn view(&self) -> ModuleView<M> {
        ModuleView {
            id: self.id,
            state: self.state,
            listeners: self.listeners@,
            handles: self.handles as nat,
        }
    }
}

/// Whether `kind` occurs in `kinds`.
fn names(kinds: &Vec<EventKind>, kind: EventKind) -> (found: bool)
    ensures
        found == kinds@.contains(kind),
{
    let mut index: usize = 0;
    while index < kinds.len()
        invariant
            index <= kinds@.len(),
            forall|i: int| 0 <= i < index ==> kinds@[i] != kind,
        decreases kinds@.len() - index,
    {
        if kinds[index] == kind {
            return true;
        }
        index += 1;
    }
    false
}

/// The list without `id`, the others in their order.
fn prune(list: Vec<ModuleId>, id: ModuleId) -> (kept: Vec<ModuleId>)
    ensures
        kept@ == without(list@, id),
{
    let mut kept: Vec<ModuleId> = Vec::new();
    let mut index: usize = 0;
    assert(list@.take(0) =~= Seq::empty());
    while index < list.len()
        invariant
            index <= list@.len(),
            kept@ == without(list@.take(index as int), id),
        decreases list@.len() - index,
    {
        proof {
            let step = list@.take(index + 1);
            assert(step.drop_last() =~= list@.take(index as int));
            assert(step.last() == list@[index as int]);
        }
        if list[index] != id {
            kept.push(list[index]);
        }
        index += 1;
    }
    assert(list@.take(index as int) =~= list@);
    kept
}

impl<M> AnyModule<M> {
    /// Wraps a freshly constructed state into a registry entry. The entry's
    /// table holds each kind that `interests` names, once.
    pub(crate) fn new(id: ModuleId, state: M, interests: &Vec<EventKind>) -> (module: Self)
        ensures
            module@ == ModuleView::fresh(id, state, interests@),
    {
        let mut listeners: Vec<EventKind> = Vec::new();
        let mut index: usize = 0;
        assert(interests@.take(0) =~= Seq::empty());
        while index < interests.len()
            invariant
                index <= interests@.len(),
                listeners@ == distinct(interests@.take(index as int)),
            decreases interests@.len() - index,
        {
            let kind = interests[index];
            proof {
                let step = interests@.take(index + 1);
                assert(step.drop_last() =~= interests@.take(index as int));
                assert(step.last() == kind);
            }
            if !names(&listeners, kind) {
                listeners.push(kind);
            }
            index += 1;
        }
        assert(interests@.take(index as int) =~= interests@);
        AnyModule { id, state: Some(state), listeners, handles: 0 }
    }
}

/// A handle to a loaded module, through which its state can be read.
///
/// While a handle is out its module cannot be unloaded; hand it back with
/// [`Engine::release`]. Nothing else counts a handle back in: a handle that
/// is merely dropped stays counted, and its module stays in use for good.
///
/// A handle names its module by identity alone and belongs to the engine
/// that made it. Handed back to another engine it is counted back there,
/// for the module of that identity, if that engine has one with a handle
/// out.
#[derive(Debug)]
#[must_use]
pub struct Dependency {
    module: ModuleId,
}

impl Dependency {
    /// The module this handle is for.
    pub closed spec fn module_id(&self) -> ModuleId {
        self.module
    }

    /// What the handle shows of a registry: the state of its module.
    pub open spec fn observes<M>(&self, registry: Registry<M>) -> M {
        registry.state_of(self.module_id())
    }

    /// The module this handle is for.
    pub fn module(&self) -> (id: ModuleId)
        ensures
            id == self.module_id(),
    {
        self.module
    }

    /// Read the module state immutably.
    ///
    /// The state of a module cannot be read while the module's own handler
    /// runs on it.
    pub fn read_state<'a, M>(&self, engine: &'a Engine<M>) -> (state: &'a M)
        requires
            engine.wf(),
            engine@.readable(self.module_id()),
        ensures
            *state == self.observes(engine@),
    {
        let found = engine.position(self.module);
        let index = found.unwrap();
        proof {
            lemma_index_of(engine@, index as int);
        }
        engine.modules[index].state.as_ref().unwrap()
    }
}

/// What a request for a handle came to, with the handle named by its module.
pub open spec fn granted_to(result: Result<Dependency, ModuleError>) -> Result<
    ModuleId,
    ModuleError,
> {
    match result {
        Ok(handle) => Ok(handle.module_id()),
        Err(error) => Err(error),
    }
}

/// Allows for instantiation, storage and event dispatching of modules.
pub struct Engine<M> {
    modules: Vec<AnyModule<M>>,
    subscribers: HashMap<EventKind, Vec<ModuleId>>,
}

impl<M> View for Engine<M> {
    type V = Registry<M>;

    closed spec fn view(&self) -> Registry<M> {
        Registry { entries: Seq::new(self.modules@.len(), |i: int| self.modules@[i]@) }
    }
}

impl<M> Engine<M> {
    /// The subscribers the index holds for `kind`.
    spec fn subscribed(&self, kind: EventKind) -> Seq<ModuleId> {
        if self.subscribers@.contains_key(kind) {
            self.subscribers@[kind]@
        } else {
            Seq::empty()
        }
    }

    /// The registry is well formed and the subscriber index agrees with it.
    pub closed spec fn wf(&self) -> bool {
        &&& self@.wf()
        &&& forall|kind: EventKind| self.subscribed(kind) == #[trigger] self@.targets(kind)
    }

    /// The registry of a well-formed engine is well formed.
    pub proof fn lemma_registry_wf(&self)
        requires
            self.wf(),
        ensures
            self@.wf(),
    {
    }

    /// Where the module `id` stands in the registry, if it is loaded.
    fn position(&self, id: ModuleId) -> (found: Option<usize>)
        ensures
            match found {
                Some(index) => index < self.modules@.len() && self.modules@[index as int].id == id,
                None => !self@.is_loaded(id),
            },
    {
        let mut index: usize = 0;
        while index < self.modules.len()
            invariant
                index <= self.modules@.len(),
                forall|i: int| 0 <= i < index ==> self.modules@[i].id != id,
            decreases self.modules@.len() - index,
        {
            if self.modules[index].id == id {
                return Some(index);
            }
            index += 1;
        }
        assert forall|i: int| 0 <= i < self@.entries.len() implies (#[trigger] self@.entries[i]).id
            != id by {
            assert(self.modules@[i].id != id);
        }
        None
    }

    /// Enters a new module at the end of the registry and subscribes it to
    /// every kind of its table.
    fn register(&mut self, module: AnyModule<M>)
        requires
            old(self).wf(),
            !old(self)@.is_loaded(module@.id),
            module@.listeners.no_duplicates(),
        ensures
            final(self).wf(),
            final(self)@.entries == old(self)@.entries.push(module@),
    {
        let id = module.id;
        let ghost table = module.listeners@;
        let mut index: usize = 0;
        assert(table.take(0) =~= Seq::empty());
        while index < module.listeners.len()
            invariant
                index <= table.len(),
                table == module.listeners@,
                table.no_duplicates(),
                id == module.id,
                self.modules@ == old(self).modules@,
                forall|kind: EventKind| #[trigger]
                    self.subscribed(kind) == if table.take(index as int).contains(kind) {
                        old(self).subscribed(kind).push(id)
                    } else {
                        old(self).subscribed(kind)
                    },
            decreases table.len() - index,
        {
            let kind = module.listeners[index];
            let ghost before = *self;
            proof {
                if table.take(index as int).contains(kind) {
                    let p = choose|p: int|
                        0 <= p < table.take(index as int).len() && table.take(index as int)[p]
                            == kind;
                    assert(table[p] == table[index as int]);
                }
                assert(before.subscribed(kind) == old(self).subscribed(kind));
            }
            let mut list = match self.subscribers.remove(&kind) {
                Some(list) => list,
                None => Vec::new(),
            };
            list.push(id);
            self.subscribers.insert(kind, list);
            proof {
                let step = table.take(index + 1);
                assert(step =~= table.take(index as int).push(kind));
                assert forall|other: EventKind| #[trigger]
                    self.subscribed(other) == if step.contains(other) {
                        old(self).subscribed(other).push(id)
                    } else {
                        old(self).subscribed(other)
                    } by {
                    if other == kind {
                        assert(step[index as int] == kind);
                    } else {
                        assert(self.subscribed(other) == before.subscribed(other));
                        if step.contains(other) {
                            let p = choose|p: int| 0 <= p < step.len() && step[p] == other;
                            assert(table.take(index as int)[p] == other);
                        }
                        if table.take(index as int).contains(other) {
                            let p = choose|p: int|
                                0 <= p < table.take(index as int).len() && table.take(
                                    index as int,
                                )[p] == other;
                            assert(step[p] == other);
                        }
                    }
                }
            }
            index += 1;
        }
        let ghost subscribed = *self;
        self.modules.push(module);
        proof {
            assert(table.take(index as int) =~= table);
            assert(self@.entries =~= old(self)@.entries.push(module@));
            assert(self@.entries.drop_last() =~= old(self)@.entries);
            assert forall|i: int, j: int| 0 <= i < j < self@.entries.len() implies (
            #[trigger] self@.entries[i]).id != (#[trigger] self@.entries[j]).id by {
                if j == self@.entries.len() - 1 {
                    assert(old(self)@.entries[i].id != id);
                }
            }
            assert forall|kind: EventKind| self.subscribed(kind) == #[trigger] self@.targets(
                kind,
            ) by {
                assert(self.subscribed(kind) == subscribed.subscribed(kind));
                assert(old(self).subscribed(kind) == old(self)@.targets(kind));
                assert(self@.entries.last() == module@);
                assert(module@.listens_to(kind) == table.contains(kind));
            }
        }
    }

    /// Counts one more handle to the loaded module `id` and makes it.
    fn grant(&mut self, id: ModuleId) -> (handle: Dependency)
        requires
            old(self).wf(),
            old(self)@.is_loaded(id),
        ensures
            final(self).wf(),
            final(self)@ == old(self)@.granted(id),
            final(self)@.is_loaded(id),
            final(self)@.handles_of(id) > 0,
            final(self)@.entries.len() == old(self)@.entries.len(),
            forall|i: int|
                0 <= i < final(self)@.entries.len() ==> (#[trigger] final(self)@.entries[i]).id
                    == old(self)@.entries[i].id && final(self)@.entries[i].listeners == old(
                    self,
                )@.entries[i].listeners,
            old(self)@.quiescent() ==> final(self)@.quiescent(),
            handle.module_id() == id,
    {
        let found = self.position(id);
        let index = found.unwrap();
        proof {
            lemma_index_of(self@, index as int);
        }
        let handles = self.modules[index].handles;
        if handles < HANDLE_LIMIT {
            self.modules[index].handles = handles + 1;
        }
        proof {
            assert(self@.entries =~= old(self)@.granted(id).entries);
            self.lemma_same_tables(*old(self));
            assert(self@.entries[index as int].id == id);
            lemma_index_of(self@, index as int);
        }
        Dependency { module: id }
    }

    /// An engine that differs from a well-formed one in states and handle
    /// counts alone is well formed.
    proof fn lemma_same_tables(&self, other: Self)
        requires
            other.wf(),
            self.subscribers == other.subscribers,
            self@.entries.len() == other@.entries.len(),
            forall|i: int|
                0 <= i < self@.entries.len() ==> (#[trigger] self@.entries[i]).id
                    == other@.entries[i].id && self@.entries[i].listeners
                    == other@.entries[i].listeners,
        ensures
            self.wf(),
            forall|kind: EventKind| #[trigger] self@.targets(kind) == other@.targets(kind),
    {
        assert forall|kind: EventKind| self.subscribed(kind) == #[trigger] self@.targets(
            kind,
        ) by {
            lemma_subscribers_same_tables(self@.entries, other@.entries, kind);
            assert(other.subscribed(kind) == other@.targets(kind));
        }
        assert forall|kind: EventKind| #[trigger] self@.targets(kind) == other@.targets(kind) by {
            lemma_subscribers_same_tables(self@.entries, other@.entries, kind);
        }
        assert forall|i: int, j: int| 0 <= i < j < self@.entries.len() implies (
        #[trigger] self@.entries[i]).id != (#[trigger] self@.entries[j]).id by {
            assert(other@.entries[i].id != other@.entries[j].id);
        }
        assert forall|i: int| 0 <= i < self@.entries.len() implies (
        #[trigger] self@.entries[i]).listeners.no_duplicates() by {
            assert(other@.entries[i].listeners.no_duplicates());
        }
    }

    /// Whether the state behind `handle` can be read now: its module is
    /// loaded and no handler is running on it.
    pub fn can_read(&self, handle: &Dependency) -> (readable: bool)
        requires
            self.wf(),
        ensures
            readable == self@.readable(handle.module_id()),
    {
        match self.position(handle.module) {
            Some(index) => {
                proof {
                    lemma_index_of(self@, index as int);
                }
                self.modules[index].state.is_some()
            },
            None => false,
        }
    }

    /// Check if a module is loaded.
    pub fn is_loaded(&self, id: ModuleId) -> (loaded: bool)
        ensures
            loaded == self@.is_loaded(id),
    {
        match self.position(id) {
            Some(index) => {
                assert(self@.entries[index as int].id == id);
                true
            },
            None => false,
        }
    }
}

impl<M: Module> Engine<M> {
    /// An engine without modules.
    pub fn new() -> (engine: Self)
        ensures
            engine.wf(),
            engine@ == Registry::<M>::empty(),
            engine@.declared(),
    {
        let engine = Engine { modules: Vec::new(), subscribers: HashMap::new() };
        assert(engine@.entries =~= Seq::empty());
        engine
    }

    /// Hands a handle back: one handle fewer is out for its module. The
    /// handle is taken to be one of this engine's own; what it does to the
    /// count is the same for a handle that another engine made.
    pub fn release(&mut self, handle: Dependency)
        requires
            old(self).wf(),
        ensures
            final(self).wf(),
            final(self)@ == old(self)@.released(handle.module_id()),
            old(self)@.quiescent() ==> final(self)@.quiescent(),
            old(self)@.declared() ==> final(self)@.declared(),
    {
        let id = handle.module;
        match self.position(id) {
            Some(index) => {
                proof {
                    lemma_index_of(self@, index as int);
                }
                let handles = self.modules[index].handles;
                if 0 < handles && handles < HANDLE_LIMIT {
                    self.modules[index].handles = handles - 1;
                    proof {
                        assert(self@.entries =~= old(self)@.released(id).entries);
                        self.lemma_same_tables(*old(self));
                        if old(self)@.declared() {
                            assert forall|i: int| 0 <= i < self@.entries.len() implies (
                            #[trigger] self@.entries[i]).listeners == distinct(
                                interests::<M>(self@.entries[i].id),
                            ) by {
                                assert(old(self)@.entries[i].listeners == distinct(
                                    interests::<M>(old(self)@.entries[i].id),
                                ));
                            }
                        }
                    }
                }
            },
            None => {},
        }
    }

    /// Unloads the module `id` and returns its current state.
    ///
    /// A module is in use, and stays loaded, as long as a handle to it is
    /// out or its own handler runs on it. In case the module is not loaded,
    /// an error is returned instead.
    pub fn unload_module(&mut self, id: ModuleId) -> (result: Result<M, ModuleError>)
        requires
            old(self).wf(),
        ensures
            final(self).wf(),
            match result {
                Ok(state) => old(self)@.reclaimable(id) && state == old(self)@.state_of(id)
                    && final(self)@ == old(self)@.removed(id),
                Err(ModuleError::NotFound) => !old(self)@.is_loaded(id) && final(self)@ == old(
                    self,
                )@,
                Err(ModuleError::InUse) => old(self)@.is_loaded(id) && !old(self)@.reclaimable(id)
                    && final(self)@ == old(self)@,
                Err(_) => false,
            },
            old(self)@.quiescent() ==> final(self)@.quiescent(),
            old(self)@.declared() ==> final(self)@.declared(),
    {
        let index = match self.position(id) {
            Some(index) => index,
            None => {
                return Err(ModuleError::NotFound);
            },
        };
        proof {
            lemma_index_of(self@, index as int);
        }
        if self.modules[index].handles > 0 || self.modules[index].state.is_none() {
            return Err(ModuleError::InUse);
        }
        let module = self.modules.remove(index);
        let ghost table = module.listeners@;
        let mut done: usize = 0;
        assert(table.take(0) =~= Seq::empty());
        while done < module.listeners.len()
            invariant
                done <= table.len(),
                table == module.listeners@,
                self.modules@ == old(self).modules@.remove(index as int),
                forall|kind: EventKind| #[trigger]
                    self.subscribed(kind) == if table.take(done as int).contains(kind) {
                        without(old(self).subscribed(kind), id)
                    } else {
                        old(self).subscribed(kind)
                    },
            decreases table.len() - done,
        {
            let kind = module.listeners[done];
            let ghost before = *self;
            match self.subscribers.remove(&kind) {
                Some(list) => {
                    let kept = prune(list, id);
                    if kept.len() > 0 {
                        self.subscribers.insert(kind, kept);
                    }
                },
                None => {},
            }
            proof {
                let step = table.take(done + 1);
                assert(step =~= table.take(done as int).push(kind));
                assert(without(Seq::<ModuleId>::empty(), id) =~= Seq::<ModuleId>::empty());
                assert(self.subscribed(kind) =~= without(before.subscribed(kind), id));
                assert forall|other: EventKind| #[trigger]
                    self.subscribed(other) == if step.contains(other) {
                        without(old(self).subscribed(other), id)
                    } else {
                        old(self).subscribed(other)
                    } by {
                    if other == kind {
                        assert(step[done as int] == kind);
                        if table.take(done as int).contains(kind) {
                            lemma_without_gone(old(self).subscribed(kind), id);
                            lemma_without_absent(before.subscribed(kind), id);
                        }
                    } else {
                        assert(self.subscribed(other) == before.subscribed(other));
                        if step.contains(other) {
                            let p = choose|p: int| 0 <= p < step.len() && step[p] == other;
                            assert(table.take(done as int)[p] == other);
                        }
                        if table.take(done as int).contains(other) {
                            let p = choose|p: int|
                                0 <= p < table.take(done as int).len() && table.take(
                                    done as int,
                                )[p] == other;
                            assert(step[p] == other);
                        }
                    }
                }
            }
            done += 1;
        }
        proof {
            assert(table.take(done as int) =~= table);
            assert(self@.entries =~= old(self)@.removed(id).entries);
            assert forall|i: int, j: int| 0 <= i < j < self@.entries.len() implies (
            #[trigger] self@.entries[i]).id != (#[trigger] self@.entries[j]).id by {
                let a = if i < index { i } else { i + 1 };
                let b = if j < index { j } else { j + 1 };
                assert(old(self)@.entries[a].id != old(self)@.entries[b].id);
            }
            assert forall|i: int| 0 <= i < self@.entries.len() implies (
            #[trigger] self@.entries[i]).listeners.no_duplicates() by {
                let a = if i < index { i } else { i + 1 };
                assert(old(self)@.entries[a].listeners.no_duplicates());
            }
            assert forall|i: int| 0 <= i < self@.entries.len() && old(self)@.quiescent() implies (
            #[trigger] self@.entries[i]).state is Some by {
                let a = if i < index { i } else { i + 1 };
                assert(old(self)@.entries[a].state is Some);
            }
            assert forall|i: int| 0 <= i < self@.entries.len() && old(self)@.declared() implies (
            #[trigger] self@.entries[i]).listeners == distinct(
                interests::<M>(self@.entries[i].id),
            ) by {
                let a = if i < index { i } else { i + 1 };
                assert(old(self)@.entries[a].listeners == distinct(
                    interests::<M>(old(self)@.entries[a].id),
                ));
            }
            assert forall|kind: EventKind| self.subscribed(kind) == #[trigger] self@.targets(
                kind,
            ) by {
                assert(old(self).subscribed(kind) == old(self)@.targets(kind));
                lemma_subscribers_remove(old(self)@.entries, index as int, kind);
                if !table.contains(kind) {
                    if old(self)@.targets(kind).contains(id) {
                        lemma_subscribers_are_listeners(old(self)@.entries, kind, id);
                        let i = choose|i: int|
                            0 <= i < old(self)@.entries.len() && (#[trigger] old(
                                self,
                            )@.entries[i]).id == id && old(self)@.entries[i].listens_to(kind);
                        lemma_index_of(old(self)@, i);
                    }
                    lemma_without_absent(old(self)@.targets(kind), id);
                }
            }
        }
        Ok(module.state.unwrap())
    }

    /// Registers a freshly constructed state under `id`. Where the module
    /// came to be loaded while its own constructor ran, the new state takes
    /// the place of the registered one, and the subscriptions stay.
    fn install(&mut self, id: ModuleId, state: M)
        requires
            old(self).wf(),
        ensures
            final(self).wf(),
            final(self)@ == old(self)@.installed(id, state, interests::<M>(id)),
            final(self)@.is_loaded(id),
            old(self)@.quiescent() ==> final(self)@.quiescent(),
            old(self)@.declared() ==> final(self)@.declared(),
    {
        match self.position(id) {
            Some(index) => {
                proof {
                    lemma_index_of(self@, index as int);
                }
                self.modules[index].state = Some(state);
                proof {
                    assert(self@.entries =~= old(self)@.settled(id, state).entries);
                    self.lemma_same_tables(*old(self));
                    assert(self@.entries[index as int].id == id);
                    if old(self)@.declared() {
                        lemma_declared_kept(old(self)@, self@);
                    }
                }
            },
            None => {
                let declared = M::ListeningTo::raw_listeners(id);
                let module = AnyModule::new(id, state, &declared);
                proof {
                    lemma_distinct_no_duplicates(declared@);
                }
                self.register(module);
                proof {
                    assert(self@.entries[self@.entries.len() - 1].id == id);
                    assert forall|i: int|
                        0 <= i < self@.entries.len() && old(self)@.declared() implies (
                    #[trigger] self@.entries[i]).listeners == distinct(
                        interests::<M>(self@.entries[i].id),
                    ) by {
                        if i < old(self)@.entries.len() {
                            assert(old(self)@.entries[i].listeners == distinct(
                                interests::<M>(old(self)@.entries[i].id),
                            ));
                        }
                    }
                }
            },
        }
    }

    /// Returns a handle to the module `id`, loading it if not found.
    ///
    /// Loading runs the module's constructor, which may load further
    /// modules. In case the constructor fails, its failure is returned
    /// instead, and the modules it had loaded by then stay loaded.
    pub fn dependency(&mut self, id: ModuleId) -> (result: Result<Dependency, ModuleError>)
        requires
            old(self).wf(),
        ensures
            final(self).wf(),
            old(self)@.quiescent() ==> final(self)@.quiescent(),
            old(self)@.depends(id, granted_to(result), final(self)@),
            result is Ok ==> final(self)@.is_loaded(id) && final(self)@.handles_of(id) > 0,
            old(self)@.declared() ==> final(self)@.declared(),
    {
        if !self.is_loaded(id) {
            match M::new(id, self) {
                Ok(state) => {
                    let ghost built = self@;
                    self.install(id, state);
                    assert(old(self)@.constructs(id, None, self@)) by {
                        assert(M::constructed(id, old(self)@, Ok(state), built));
                    }
                },
                Err(cause) => {
                    assert(old(self)@.constructs(id, Some(cause), self@)) by {
                        assert(M::constructed(id, old(self)@, Err(cause), self@));
                    }
                    return Err(ModuleError::InitError(cause));
                },
            }
        }
        let ghost loaded = self@;
        let handle = self.grant(id);
        proof {
            if loaded.declared() {
                lemma_declared_kept(loaded, self@);
            }
        }
        Ok(handle)
    }

    /// Loads the module `id`, which must not be loaded yet, and returns a
    /// handle to it.
    pub fn load_module(&mut self, id: ModuleId) -> (result: Result<Dependency, ModuleError>)
        requires
            old(self).wf(),
        ensures
            final(self).wf(),
            old(self)@.quiescent() ==> final(self)@.quiescent(),
            old(self)@.loads(id, granted_to(result), final(self)@),
            old(self)@.is_loaded(id) ==> result == Err::<Dependency, ModuleError>(
                ModuleError::AlreadyExist,
            ),
            result is Ok ==> final(self)@.is_loaded(id) && final(self)@.handles_of(id) > 0,
            old(self)@.declared() ==> final(self)@.declared(),
    {
        if self.is_loaded(id) {
            Err(ModuleError::AlreadyExist)
        } else {
            self.dependency(id)
        }
    }

    /// Hands `event` to the module `id`, if the module's table holds the
    /// kind of the event: the module's state is taken out of the registry for
    /// as long as its handler runs, and put back after. Returns what the
    /// handler pushed. A module whose table lacks the kind is left alone.
    fn handle_event(&mut self, id: ModuleId, event: &mut M::Event) -> (pushed: EventQueue<
        M::Event,
    >)
        requires
            old(self).wf(),
            old(self)@.readable(id),
        ensures
            final(self).wf(),
            old(self)@.entry(id).listens_to(old(event).kind_spec()) ==> old(self)@.delivered(
                id,
                *old(event),
                final(self)@,
                *final(event),
                pushed@,
            ),
            !old(self)@.entry(id).listens_to(old(event).kind_spec()) ==> final(self)@ == old(
                self,
            )@ && *final(event) == *old(event) && pushed@ == Seq::<M::Event>::empty(),
            old(self)@.keeps_modules(final(self)@),
            old(self)@.quiescent() ==> final(self)@.quiescent(),
            forall|kind: EventKind| #[trigger]
                final(self)@.targets(kind) == old(self)@.targets(kind),
    {
        let found = self.position(id);
        let index = found.unwrap();
        proof {
            lemma_index_of(self@, index as int);
        }
        let mut sink = EventQueue::new();
        if !names(&self.modules[index].listeners, event.kind()) {
            return sink;
        }
        let taken = self.modules[index].state.take();
        let mut state = taken.unwrap();
        proof {
            assert(self@.entries =~= old(self)@.lent(id).entries);
            assert forall|kind: EventKind| self.subscribed(kind) == #[trigger] self@.targets(
                kind,
            ) by {
                lemma_subscribers_same_tables(self@.entries, old(self)@.entries, kind);
                assert(old(self).subscribed(kind) == old(self)@.targets(kind));
            }
        }
        state.on_event(event, &mut sink, &*self);
        self.modules[index].state = Some(state);
        proof {
            assert(self@.entries =~= old(self)@.settled(id, state).entries);
            lemma_index_of(self@, index as int);
            assert forall|kind: EventKind| self.subscribed(kind) == #[trigger] self@.targets(
                kind,
            ) by {
                lemma_subscribers_same_tables(self@.entries, old(self)@.entries, kind);
                assert(old(self).subscribed(kind) == old(self)@.targets(kind));
            }
            assert forall|kind: EventKind| #[trigger]
                self@.targets(kind) == old(self)@.targets(kind) by {
                lemma_subscribers_same_tables(self@.entries, old(self)@.entries, kind);
            }
        }
        sink
    }

    /// Delivers one event to every module subscribed to its kind, in
    /// subscription order. Returns what the handlers pushed, in push order.
    fn dispatch(&mut self, event: &mut M::Event) -> (pushed: EventQueue<M::Event>)
        requires
            old(self).wf(),
            old(self)@.quiescent(),
        ensures
            final(self).wf(),
            final(self)@.quiescent(),
            old(self)@.keeps_modules(final(self)@),
            old(self)@.declared() ==> final(self)@.declared(),
            old(self)@.dispatched(*old(event), final(self)@, pushed@),
    {
        let kind = event.kind();
        let ghost targets = self@.targets(kind);
        assert(self.subscribed(kind) == targets);
        let count = match self.subscribers.get(&kind) {
            Some(list) => list.len(),
            None => 0,
        };
        let mut pushed = EventQueue::new();
        let mut done: usize = 0;
        assert(targets.take(0) =~= Seq::empty());
        while done < count
            invariant
                self.wf(),
                self@.quiescent(),
                done <= count,
                count == targets.len(),
                targets == self@.targets(kind),
                event.kind_spec() == kind,
                old(self)@.keeps_modules(self@),
                old(self)@.broadcast(targets.take(done as int), *old(event), self@, *event, pushed@),
            decreases count - done,
        {
            assert(self.subscribed(kind) == targets);
            let id = self.subscribers.get(&kind).unwrap()[done];
            proof {
                assert(targets[done as int] == id);
                assert(targets.contains(id));
                lemma_subscribers_are_listeners(self@.entries, kind, id);
                let i = choose|i: int|
                    0 <= i < self@.entries.len() && (#[trigger] self@.entries[i]).id == id
                        && self@.entries[i].listens_to(kind);
                lemma_index_of(self@, i);
                assert(self@.entry(id).listens_to(event.kind_spec()));
            }
            let ghost mid = self@;
            let ghost event_mid = *event;
            let ghost first = pushed@;
            let sink = self.handle_event(id, event);
            let ghost last = sink@;
            pushed = sink.merge_after(pushed);
            proof {
                lemma_broadcast_extend(
                    old(self)@,
                    targets.take(done as int),
                    *old(event),
                    mid,
                    event_mid,
                    first,
                    id,
                    self@,
                    *event,
                    last,
                );
                assert(targets.take(done as int).push(id) =~= targets.take(done + 1));
            }
            done += 1;
        }
        assert(targets.take(done as int) =~= targets);
        pushed
    }

    /// Runs one round: delivers every event of `pending`, oldest first, and
    /// returns the events the handlers pushed meanwhile, in push order. They
    /// are the batch of the next round.
    pub fn run_round(&mut self, pending: EventQueue<M::Event>) -> (next: EventQueue<M::Event>)
        requires
            old(self).wf(),
            old(self)@.quiescent(),
        ensures
            final(self).wf(),
            final(self)@.quiescent(),
            old(self)@.keeps_modules(final(self)@),
            old(self)@.declared() ==> final(self)@.declared(),
            old(self)@.round(pending@, final(self)@, next@),
    {
        let mut pending = pending;
        let mut batch = pending.drain();
        let ghost events = batch@;
        let mut next = EventQueue::new();
        let mut done: usize = 0;
        assert(events.take(0) =~= Seq::empty());
        while done < batch.len()
            invariant
                self.wf(),
                self@.quiescent(),
                done <= batch@.len(),
                batch@.len() == events.len(),
                forall|i: int| done <= i < events.len() ==> batch@[i] == events[i],
                old(self)@.keeps_modules(self@),
                old(self)@.round(events.take(done as int), self@, next@),
            decreases batch@.len() - done,
        {
            let ghost mid = self@;
            let ghost first = next@;
            let ghost before = batch@;
            let event = &mut batch[done];
            let pushed = self.dispatch(event);
            let ghost last = pushed@;
            next = pushed.merge_after(next);
            proof {
                lemma_round_extend(
                    old(self)@,
                    events.take(done as int),
                    mid,
                    first,
                    events[done as int],
                    self@,
                    last,
                );
                assert(events.take(done as int).push(events[done as int]) =~= events.take(
                    done + 1,
                ));
            }
            done += 1;
        }
        assert(events.take(done as int) =~= events);
        next
    }

    /// Dispatch `event` to all subscribed modules and continue dispatching
    /// the events they push, round after round, until none is left.
    ///
    /// Events pushed during one round are delivered in the next, in the
    /// order they were pushed. Nothing bounds the number of rounds: the
    /// caller answers for modules that do not keep pushing events forever.
    pub fn run_with(&mut self, event: M::Event)
        requires
            old(self).wf(),
            old(self)@.quiescent(),
            old(self)@.settles(seq![event]),
        ensures
            final(self).wf(),
            final(self)@.quiescent(),
            old(self)@.keeps_modules(final(self)@),
            old(self)@.declared() ==> final(self)@.declared(),
            old(self)@.ran(seq![event], final(self)@),
    {
        let mut pending = EventQueue::new();
        pending.push(event);
        assert(pending@ =~= seq![event]);
        let ghost mut limit: nat = choose|limit: nat|
            old(self)@.settles_within(seq![event], limit);
        let ghost mut count: nat = 0;
        while !pending.is_empty()
            invariant
                self.wf(),
                self@.quiescent(),
                self@.settles_within(pending@, limit),
                old(self)@.keeps_modules(self@),
                old(self)@.rounds(seq![event], count, self@, pending@),
            decreases limit,
        {
            let ghost mid = self@;
            let ghost batch = pending@;
            pending = self.run_round(pending);
            proof {
                assert(mid.round(batch, self@, pending@));
                limit = (limit - 1) as nat;
                count = count + 1;
                assert(old(self)@.rounds(seq![event], (count - 1) as nat, mid, batch));
            }
        }
        assert(pending@ =~= Seq::empty());
    }
}

} // verus!
