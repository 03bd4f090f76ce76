//! A module that keeps loaded assets, one per asset kind, and hands them out
//! by kind.

use crate::modules::engine::{Engine, Module};
use crate::modules::events::{Event, EventKind, EventList, EventQueue, Listener};
use crate::modules::registry::{ModuleId, Registry};
use crate::modules::utils::Take;
use std::collections::HashMap;
use vstd::prelude::*;

verus! {

/// Identifies what an asset is; the module keeps one asset of each kind.
pub type AssetKind = u64;

/// The kind of every [`AssetsEvent`].
pub const ASSETS_EVENT: EventKind = 1;

pub enum AssetsEvent<A> {
    /// Hands an asset over to the module, which takes it out of the event.
    Load { kind: AssetKind, value: Take<A> },
    /// Forgets every loader that waits to run. Loaded assets stay.
    Reset,
}

impl<A> AssetsEvent<A> {
    /// The event is a `Load` that hands over `asset` as the asset of `kind`.
    pub open spec fn carries(self, kind: AssetKind, asset: A) -> bool {
        self matches AssetsEvent::Load { kind: named, value } && named == kind && value@ == Some(
            asset,
        )
    }
}

impl<A> Event for AssetsEvent<A> {
    open spec fn kind_spec(&self) -> EventKind {
        ASSETS_EVENT
    }

    fn kind(&self) -> (kind: EventKind) {
        ASSETS_EVENT
    }
}

pub struct AssetsModule<A> {
    loaded: HashMap<AssetKind, A>,
}

impl<A> View for AssetsModule<A> {
    type V = Map<AssetKind, A>;

    /// The loaded assets by kind.
    closed spec fn view(&self) -> Map<AssetKind, A> {
        self.loaded@
    }
}

impl<A> AssetsModule<A> {
    /// Whether an asset of the kind `kind` has been loaded.
    pub fn is_loaded(&self, kind: &AssetKind) -> (loaded: bool)
        ensures
            loaded == self@.contains_key(*kind),
    {
        self.loaded.contains_key(kind)
    }

    /// The loaded asset of the kind `kind`. An asset can't be used before it
    /// has been loaded.
    pub fn get(&self, kind: AssetKind) -> (asset: &A)
        requires
            self@.contains_key(kind),
        ensures
            *asset == self@[kind],
    {
        self.loaded.get(&kind).unwrap()
    }

    /// What the module holds once it has seen `event`: the asset of a `Load`
    /// that still carries one is kept under its kind, in place of an earlier
    /// asset of that kind.
    pub open spec fn absorbed(assets: Map<AssetKind, A>, event: AssetsEvent<A>) -> Map<
        AssetKind,
        A,
    > {
        match event {
            AssetsEvent::Load { kind, value } => match value@ {
                Some(asset) => assets.insert(kind, asset),
                None => assets,
            },
            AssetsEvent::Reset => assets,
        }
    }

    /// The event as the module leaves it: a `Load` has given up its asset.
    pub open spec fn emptied(event: AssetsEvent<A>, event_after: AssetsEvent<A>) -> bool {
        match event {
            AssetsEvent::Load { kind, value } => event_after matches AssetsEvent::Load {
                kind: kind_after,
                value: value_after,
            } && kind_after == kind && value_after@ is None,
            AssetsEvent::Reset => event_after is Reset,
        }
    }
}

impl<A> Listener<AssetsEvent<A>> for AssetsModule<A> {
    open spec fn handled(
        before: Self,
        event: AssetsEvent<A>,
        peers: Registry<Self>,
        after: Self,
        event_after: AssetsEvent<A>,
        pushed: Seq<AssetsEvent<A>>,
    ) -> bool {
        &&& after@ == Self::absorbed(before@, event)
        &&& Self::emptied(event, event_after)
        &&& pushed == Seq::<AssetsEvent<A>>::empty()
    }

    fn on_event(
        &mut self,
        event: &mut AssetsEvent<A>,
        queue: &mut EventQueue<AssetsEvent<A>>,
        peers: &Engine<Self>,
    ) {
        match event {
            AssetsEvent::Load { kind, value } => {
                if !value.taken() {
                    let asset = value.take();
                    self.loaded.insert(*kind, asset);
                }
            },
            AssetsEvent::Reset => {},
        }
        assert(queue@ =~= Seq::empty());
    }
}

/// The declaration of interest of the assets module: asset events.
pub struct AssetsListening;

impl<A> EventList<AssetsModule<A>> for AssetsListening {
    open spec fn kinds(id: ModuleId) -> Seq<EventKind> {
        seq![ASSETS_EVENT]
    }

    fn raw_listeners(id: ModuleId) -> (kinds: Vec<EventKind>) {
        let mut kinds: Vec<EventKind> = Vec::new();
        kinds.push(ASSETS_EVENT);
        assert(kinds@ =~= seq![ASSETS_EVENT]);
        kinds
    }
}

impl<A> Module for AssetsModule<A> {
    type Event = AssetsEvent<A>;

    type ListeningTo = AssetsListening;

    open spec fn constructed(
        id: ModuleId,
        before: Registry<Self>,
        outcome: Result<Self, String>,
        after: Registry<Self>,
    ) -> bool {
        &&& outcome matches Ok(module) && module@ == Map::<AssetKind, A>::empty()
        &&& after == before
    }

    fn new(id: ModuleId, ctx: &mut Engine<Self>) -> (outcome: Result<Self, String>) {
        Ok(AssetsModule { loaded: HashMap::new() })
    }
}

/// Lets a handler hand an asset to the assets module through its queue.
pub trait AssetsEventQueueExt<A> {
    fn load_asset(&mut self, kind: AssetKind, asset: A);
}

impl<A> AssetsEventQueueExt<A> for EventQueue<AssetsEvent<A>> {
    fn load_asset(&mut self, kind: AssetKind, asset: A)
        ensures
            final(self)@.len() == old(self)@.len() + 1,
            final(self)@.drop_last() == old(self)@,
            final(self)@.last().carries(kind, asset),
    {
        self.push(AssetsEvent::Load { kind, value: Take::new(asset) });
        assert(self@.drop_last() =~= old(self)@);
    }
}

/// Delivering an asset event pushes nothing, whoever receives it.
proof fn lemma_broadcast_pushes_nothing<A>(
    registry: Registry<AssetsModule<A>>,
    targets: Seq<ModuleId>,
    event: AssetsEvent<A>,
    after: Registry<AssetsModule<A>>,
    event_after: AssetsEvent<A>,
    pushed: Seq<AssetsEvent<A>>,
)
    requires
        registry.broadcast(targets, event, after, event_after, pushed),
    ensures
        pushed == Seq::<AssetsEvent<A>>::empty(),
    decreases targets.len(),
{
    if targets.len() > 0 {
        let (mid, event_mid, cut) = choose|
            mid: Registry<AssetsModule<A>>,
            event_mid: AssetsEvent<A>,
            cut: int,
        |
            {
                &&& 0 <= cut <= pushed.len()
                &&& registry.broadcast(
                    targets.drop_last(),
                    event,
                    mid,
                    event_mid,
                    pushed.take(cut),
                )
                &&& #[trigger] mid.delivered(
                    targets.last(),
                    event_mid,
                    after,
                    event_after,
                    pushed.skip(cut),
                )
            };
        lemma_broadcast_pushes_nothing(
            registry,
            targets.drop_last(),
            event,
            mid,
            event_mid,
            pushed.take(cut),
        );
        assert(pushed =~= pushed.take(cut) + pushed.skip(cut));
    }
}

/// A round of asset events leaves nothing for a next round.
proof fn lemma_round_pushes_nothing<A>(
    registry: Registry<AssetsModule<A>>,
    batch: Seq<AssetsEvent<A>>,
    after: Registry<AssetsModule<A>>,
    next: Seq<AssetsEvent<A>>,
)
    requires
        registry.round(batch, after, next),
    ensures
        next == Seq::<AssetsEvent<A>>::empty(),
    decreases batch.len(),
{
    if batch.len() > 0 {
        let (mid, cut) = choose|mid: Registry<AssetsModule<A>>, cut: int|
            {
                &&& 0 <= cut <= next.len()
                &&& registry.round(batch.drop_last(), mid, next.take(cut))
                &&& #[trigger] mid.dispatched(batch.last(), after, next.skip(cut))
            };
        lemma_round_pushes_nothing(registry, batch.drop_last(), mid, next.take(cut));
        let event_after = choose|event_after: AssetsEvent<A>| #[trigger]
            mid.broadcast(
                mid.targets(batch.last().kind_spec()),
                batch.last(),
                after,
                event_after,
                next.skip(cut),
            );
        lemma_broadcast_pushes_nothing(
            mid,
            mid.targets(batch.last().kind_spec()),
            batch.last(),
            after,
            event_after,
            next.skip(cut),
        );
        assert(next =~= next.take(cut) + next.skip(cut));
    }
}

/// In an engine of asset modules the delivery of any events comes to an end
/// after one round: asset handlers push no events.
pub proof fn law_asset_events_settle<A>(
    registry: Registry<AssetsModule<A>>,
    pending: Seq<AssetsEvent<A>>,
)
    ensures
        registry.settles_within(pending, 1),
        registry.settles(pending),
{
    assert forall|after: Registry<AssetsModule<A>>, next: Seq<AssetsEvent<A>>| #[trigger]
        registry.round(pending, after, next) implies after.settles_within(next, 0) by {
        lemma_round_pushes_nothing(registry, pending, after, next);
    }
}

/// In an engine of asset modules the delivery of events is their one
/// round.
pub proof fn law_asset_events_take_one_round<A>(
    registry: Registry<AssetsModule<A>>,
    pending: Seq<AssetsEvent<A>>,
    after: Registry<AssetsModule<A>>,
)
    requires
        pending.len() > 0,
        registry.ran(pending, after),
    ensures
        registry.round(pending, after, Seq::<AssetsEvent<A>>::empty()),
{
    let nothing = Seq::<AssetsEvent<A>>::empty();
    let count = choose|count: nat| #[trigger] registry.rounds(pending, count, after, nothing);
    assert(count > 0);
    let (mid, batch) = choose|mid: Registry<AssetsModule<A>>, batch: Seq<AssetsEvent<A>>|
        {
            &&& registry.rounds(pending, (count - 1) as nat, mid, batch)
            &&& batch.len() > 0
            &&& #[trigger] mid.round(batch, after, nothing)
        };
    if count > 1 {
        let (earlier, before) = choose|
            earlier: Registry<AssetsModule<A>>,
            before: Seq<AssetsEvent<A>>,
        |
            {
                &&& registry.rounds(pending, (count - 2) as nat, earlier, before)
                &&& before.len() > 0
                &&& #[trigger] earlier.round(before, mid, batch)
            };
        lemma_round_pushes_nothing(earlier, before, mid, batch);
    }
}

} // verus!
