//! What holds of every engine, stated over registries.

use crate::modules::engine::{Dependency, Module, ModuleError};
use crate::modules::events::{Event, EventKind};
use crate::modules::lemmas::{
    lemma_broadcast_extend, lemma_distinct_contains, lemma_distinct_no_duplicates, lemma_index_of,
    lemma_subscribers_are_listeners, lemma_subscribers_remove, lemma_subscribers_same_tables,
    lemma_without_gone,
};
use crate::modules::registry::{
    distinct, interests, subscribers_in, without, ModuleId, ModuleView, Registry, HANDLE_LIMIT,
};
use vstd::prelude::*;

verus! {

/// The subscribers of a kind stand in the order of the entries they come
/// from, each entry giving at most one.
proof fn lemma_subscribers_ordered<M>(entries: Seq<ModuleView<M>>, kind: EventKind, p: int, q: int)
    requires
        0 <= p < q < subscribers_in(entries, kind).len(),
    ensures
        exists|i: int, j: int|
            0 <= i < j < entries.len() && (#[trigger] entries[i]).id == subscribers_in(
                entries,
                kind,
            )[p] && (#[trigger] entries[j]).id == subscribers_in(entries, kind)[q],
    decreases entries.len(),
{
    let subs = subscribers_in(entries, kind);
    if entries.len() > 0 {
        let rest = entries.drop_last();
        let before = subscribers_in(rest, kind);
        if q < before.len() {
            lemma_subscribers_ordered(rest, kind, p, q);
            let (i, j) = choose|i: int, j: int|
                0 <= i < j < rest.len() && (#[trigger] rest[i]).id == before[p] && (
                #[trigger] rest[j]).id == before[q];
            assert(entries[i].id == subs[p] && entries[j].id == subs[q]);
        } else {
            assert(before[p] == subs[p]);
            assert(before.contains(subs[p]));
            lemma_subscribers_are_listeners(rest, kind, subs[p]);
            let i = choose|i: int|
                0 <= i < rest.len() && (#[trigger] rest[i]).id == subs[p] && rest[i].listens_to(
                    kind,
                );
            let j = entries.len() - 1;
            assert(entries[i].id == subs[p] && entries[j].id == subs[q]);
        }
    }
}

/// An event is delivered to exactly the loaded modules that declared
/// interest in its kind, to each of them once, in the order in which they
/// were loaded.
pub proof fn law_delivery_targets<M>(registry: Registry<M>, kind: EventKind)
    requires
        registry.wf(),
    ensures
        registry.targets(kind).no_duplicates(),
        forall|id: ModuleId|
            registry.targets(kind).contains(id) <==> registry.is_loaded(id) && registry.entry(
                id,
            ).listens_to(kind),
        forall|p: int, q: int|
            0 <= p < q < registry.targets(kind).len() ==> registry.index_of(
                registry.targets(kind)[p],
            ) < registry.index_of(registry.targets(kind)[q]),
{
    let targets = registry.targets(kind);
    assert forall|p: int, q: int| 0 <= p < q < targets.len() implies registry.index_of(targets[p])
        < registry.index_of(targets[q]) by {
        lemma_subscribers_ordered(registry.entries, kind, p, q);
        let (i, j) = choose|i: int, j: int|
            0 <= i < j < registry.entries.len() && (#[trigger] registry.entries[i]).id
                == targets[p] && (#[trigger] registry.entries[j]).id == targets[q];
        lemma_index_of(registry, i);
        lemma_index_of(registry, j);
    }
    assert forall|id: ModuleId|
        targets.contains(id) <==> registry.is_loaded(id) && registry.entry(id).listens_to(
            kind,
        ) by {
        lemma_subscribers_are_listeners(registry.entries, kind, id);
        if targets.contains(id) {
            let i = choose|i: int|
                0 <= i < registry.entries.len() && (#[trigger] registry.entries[i]).id == id
                    && registry.entries[i].listens_to(kind);
            lemma_index_of(registry, i);
        }
        if registry.is_loaded(id) && registry.entry(id).listens_to(kind) {
            let i = registry.index_of(id);
            assert(registry.entries[i].id == id && registry.entries[i].listens_to(kind));
        }
    }
    assert forall|p: int, q: int| 0 <= p < q < targets.len() implies targets[p] != targets[q] by {
        assert(registry.index_of(targets[p]) < registry.index_of(targets[q]));
    }
}

/// In an engine whose tables are the declared ones, an event is delivered
/// to exactly the loaded modules that declared interest in its kind.
pub proof fn law_delivery_follows_declarations<M: Module>(
    registry: Registry<M>,
    kind: EventKind,
    id: ModuleId,
)
    requires
        registry.wf(),
        registry.declared(),
    ensures
        registry.targets(kind).contains(id) <==> registry.is_loaded(id) && interests::<M>(
            id,
        ).contains(kind),
{
    law_delivery_targets(registry, kind);
    lemma_distinct_contains(interests::<M>(id), kind);
    if registry.is_loaded(id) {
        let index = registry.index_of(id);
        assert(registry.entries[index].listeners == distinct(
            interests::<M>(registry.entries[index].id),
        ));
    }
}

/// An event that no loaded module listens to is dropped: its dispatch
/// changes nothing and pushes nothing.
pub proof fn law_unheard_event_is_dropped<M: Module>(
    registry: Registry<M>,
    event: M::Event,
    after: Registry<M>,
    pushed: Seq<M::Event>,
)
    requires
        registry.targets(event.kind_spec()).len() == 0,
        registry.dispatched(event, after, pushed),
    ensures
        after == registry,
        pushed == Seq::<M::Event>::empty(),
{
}

/// Two handles to the same module observe the same state, whatever the
/// engine has come to: what shows through one shows through the other.
pub proof fn law_handles_share_state<M>(first: Dependency, second: Dependency, registry: Registry<M>)
    requires
        first.module_id() == second.module_id(),
    ensures
        first.observes(registry) == second.observes(registry),
{
}

/// Once a module is unloaded it is gone from the registry and from the
/// subscribers of every kind, and the subscribers that stay keep their
/// order.
pub proof fn law_unloaded_module_is_gone<M>(registry: Registry<M>, id: ModuleId, kind: EventKind)
    requires
        registry.wf(),
        registry.is_loaded(id),
    ensures
        registry.removed(id).wf(),
        !registry.removed(id).is_loaded(id),
        registry.removed(id).targets(kind) == without(registry.targets(kind), id),
        !registry.removed(id).targets(kind).contains(id),
{
    let index = registry.index_of(id);
    let after = registry.removed(id);
    lemma_subscribers_remove(registry.entries, index, kind);
    lemma_without_gone(registry.targets(kind), id);
    assert forall|i: int| 0 <= i < after.entries.len() implies (#[trigger] after.entries[i]).id
        != id by {
        let a = if i < index { i } else { i + 1 };
        if a < index {
            assert(registry.entries[a].id != registry.entries[index].id);
        } else {
            assert(registry.entries[index].id != registry.entries[a].id);
        }
    }
    assert forall|i: int, j: int| 0 <= i < j < after.entries.len() implies (
    #[trigger] after.entries[i]).id != (#[trigger] after.entries[j]).id by {
        let a = if i < index { i } else { i + 1 };
        let b = if j < index { j } else { j + 1 };
        assert(registry.entries[a].id != registry.entries[b].id);
    }
    assert forall|i: int| 0 <= i < after.entries.len() implies (
    #[trigger] after.entries[i]).listeners.no_duplicates() by {
        let a = if i < index { i } else { i + 1 };
        assert(registry.entries[a].listeners.no_duplicates());
    }
}

/// A module that was loaded afresh is there: loading it afresh a second
/// time is refused with `AlreadyExist` and changes nothing.
pub proof fn law_second_load_is_refused<M: Module>(
    before: Registry<M>,
    id: ModuleId,
    first: Result<ModuleId, ModuleError>,
    loaded: Registry<M>,
    second: Result<ModuleId, ModuleError>,
    after: Registry<M>,
)
    requires
        before.loads(id, first, loaded),
        first is Ok,
        loaded.loads(id, second, after),
    ensures
        second == Err::<ModuleId, ModuleError>(ModuleError::AlreadyExist),
        after == loaded,
{
    let mid = choose|mid: Registry<M>| #[trigger]
        before.constructs(id, None, mid) && loaded == mid.granted(id);
    let (outcome, built) = choose|outcome: Result<M, String>, built: Registry<M>| #[trigger]
        M::constructed(id, before, outcome, built) && match outcome {
            Ok(state) => mid == built.installed(id, state, interests::<M>(id)),
            Err(cause) => false,
        };
    let state = outcome->Ok_0;
    if built.is_loaded(id) {
        let i = built.index_of(id);
        assert(mid.entries[i].id == id);
    } else {
        assert(mid.entries[mid.entries.len() - 1].id == id);
    }
    assert(mid.is_loaded(id));
    let j = mid.index_of(id);
    assert(loaded.entries[j].id == id);
}

/// A module listens to exactly the kinds that were declared for it.
pub proof fn law_table_holds_declared_kinds<M>(
    id: ModuleId,
    state: M,
    interests: Seq<EventKind>,
    kind: EventKind,
)
    ensures
        ModuleView::fresh(id, state, interests).listens_to(kind) <==> interests.contains(kind),
        ModuleView::fresh(id, state, interests).listeners.no_duplicates(),
{
    lemma_distinct_contains(interests, kind);
    lemma_distinct_no_duplicates(interests);
}

/// Changing the entry of a loaded module, but not its identity, leaves
/// every module where it stands.
proof fn lemma_with_entry<M>(registry: Registry<M>, id: ModuleId, entry: ModuleView<M>)
    requires
        registry.wf(),
        registry.is_loaded(id),
        entry.id == id,
    ensures
        registry.with_entry(id, entry).is_loaded(id),
        registry.with_entry(id, entry).entry(id) == entry,
        forall|other: ModuleId|
            other != id ==> registry.with_entry(id, entry).is_loaded(other) == registry.is_loaded(
                other,
            ),
        forall|other: ModuleId|
            other != id && registry.is_loaded(other) ==> #[trigger] registry.with_entry(
                id,
                entry,
            ).entry(other) == registry.entry(other),
{
    let index = registry.index_of(id);
    let after = registry.with_entry(id, entry);
    assert(after.entries[index].id == id);
    assert forall|i: int, j: int| 0 <= i < j < after.entries.len() implies (
    #[trigger] after.entries[i]).id != (#[trigger] after.entries[j]).id by {
        assert(registry.entries[i].id != registry.entries[j].id);
    }
    let found = after.index_of(id);
    if found != index {
        assert(after.entries[found].id == registry.entries[found].id);
        if found < index {
            assert(registry.entries[found].id != registry.entries[index].id);
        } else {
            assert(registry.entries[index].id != registry.entries[found].id);
        }
    }
    assert forall|other: ModuleId| other != id implies after.is_loaded(other)
        == registry.is_loaded(other) by {
        if registry.is_loaded(other) {
            let i = registry.index_of(other);
            assert(after.entries[i].id == other);
        }
        if after.is_loaded(other) {
            let i = after.index_of(other);
            assert(registry.entries[i].id == other);
        }
    }
    assert forall|other: ModuleId| other != id && registry.is_loaded(other) implies (
    #[trigger] after.entry(other)) == registry.entry(other) by {
        let i = registry.index_of(other);
        let j = after.index_of(other);
        assert(after.entries[i].id == other);
        assert(after.entries[j].id == other);
        assert(registry.entries[j].id == other);
        if i < j {
            assert(registry.entries[i].id != registry.entries[j].id);
        } else if j < i {
            assert(registry.entries[j].id != registry.entries[i].id);
        }
    }
}

/// A handle that goes out is counted: its module is in use and cannot be
/// unloaded. Nothing else changes, neither for this module nor for another.
pub proof fn law_handle_keeps_module_in_use<M>(registry: Registry<M>, id: ModuleId)
    requires
        registry.wf(),
        registry.is_loaded(id),
    ensures
        registry.granted(id).is_loaded(id),
        registry.granted(id).handles_of(id) > 0,
        registry.granted(id).handles_of(id) == registry.handles_of(id) + 1
            || registry.handles_of(id) >= HANDLE_LIMIT,
        !registry.granted(id).reclaimable(id),
        registry.granted(id).entry(id).state == registry.entry(id).state,
        forall|other: ModuleId|
            other != id ==> registry.granted(id).is_loaded(other) == registry.is_loaded(other),
        forall|other: ModuleId|
            other != id && registry.is_loaded(other) ==> #[trigger] registry.granted(id).entry(
                other,
            ) == registry.entry(other),
{
    let entry = registry.entry(id);
    let handles = if entry.handles < HANDLE_LIMIT {
        entry.handles + 1
    } else {
        entry.handles
    };
    lemma_with_entry(registry, id, ModuleView { handles: handles as nat, ..entry });
}

/// A handle that comes back undoes what its going out did, as long as the
/// count of handles has not reached its limit.
pub proof fn law_release_undoes_grant<M>(registry: Registry<M>, id: ModuleId)
    requires
        registry.wf(),
        registry.is_loaded(id),
        registry.handles_of(id) + 1 < HANDLE_LIMIT,
    ensures
        registry.granted(id).released(id) == registry,
{
    let entry = registry.entry(id);
    let counted = ModuleView { handles: entry.handles + 1, ..entry };
    lemma_with_entry(registry, id, counted);
    let granted = registry.granted(id);
    assert(granted.entry(id) == counted);
    lemma_index_of(registry, registry.index_of(id));
    assert(granted.index_of(id) == registry.index_of(id)) by {
        let index = registry.index_of(id);
        let found = granted.index_of(id);
        assert(granted.entries[index].id == id);
        if found != index {
            assert(granted.entries[found].id == registry.entries[found].id);
            if found < index {
                assert(registry.entries[found].id != registry.entries[index].id);
            } else {
                assert(registry.entries[index].id != registry.entries[found].id);
            }
        }
    }
    assert(granted.released(id).entries =~= registry.entries);
}

/// Where the modules are kept and only states may differ, every module is
/// found where it was, the handles that are out stay valid, and every event
/// has the targets it had.
pub proof fn law_kept_modules<M>(
    registry: Registry<M>,
    after: Registry<M>,
    id: ModuleId,
    kind: EventKind,
)
    requires
        registry.wf(),
        registry.keeps_modules(after),
    ensures
        after.wf(),
        after.ids() == registry.ids(),
        after.is_loaded(id) == registry.is_loaded(id),
        registry.is_loaded(id) ==> after.index_of(id) == registry.index_of(id),
        registry.is_loaded(id) ==> after.handles_of(id) == registry.handles_of(id),
        after.targets(kind) == registry.targets(kind),
{
    assert(after.ids() =~= registry.ids());
    assert forall|i: int, j: int| 0 <= i < j < after.entries.len() implies (
    #[trigger] after.entries[i]).id != (#[trigger] after.entries[j]).id by {
        assert(registry.entries[i].id != registry.entries[j].id);
    }
    assert forall|i: int| 0 <= i < after.entries.len() implies (
    #[trigger] after.entries[i]).listeners.no_duplicates() by {
        assert(registry.entries[i].listeners.no_duplicates());
    }
    if registry.is_loaded(id) {
        let i = registry.index_of(id);
        assert(after.entries[i].id == id);
        lemma_index_of(after, i);
    }
    if after.is_loaded(id) {
        let i = after.index_of(id);
        assert(registry.entries[i].id == id);
    }
    lemma_subscribers_same_tables(after.entries, registry.entries, kind);
}

/// A broadcast can be cut at any place: the targets before the cut are
/// served first, those from the cut on after them.
proof fn lemma_broadcast_split<M: Module>(
    registry: Registry<M>,
    targets: Seq<ModuleId>,
    place: int,
    event: M::Event,
    after: Registry<M>,
    event_after: M::Event,
    pushed: Seq<M::Event>,
) -> (cut: (Registry<M>, M::Event, int))
    requires
        0 <= place <= targets.len(),
        registry.broadcast(targets, event, after, event_after, pushed),
    ensures
        0 <= cut.2 <= pushed.len(),
        registry.broadcast(targets.take(place), event, cut.0, cut.1, pushed.take(cut.2)),
        cut.0.broadcast(targets.skip(place), cut.1, after, event_after, pushed.skip(cut.2)),
    decreases targets.len(),
{
    if place == targets.len() {
        assert(targets.take(place) =~= targets);
        assert(targets.skip(place) =~= Seq::<ModuleId>::empty());
        assert(pushed.take(pushed.len() as int) =~= pushed);
        assert(pushed.skip(pushed.len() as int) =~= Seq::<M::Event>::empty());
        (after, event_after, pushed.len() as int)
    } else {
        let (last_before, event_last, last_cut) = choose|
            mid: Registry<M>,
            event_mid: M::Event,
            cut: int,
        |
            {
                &&& 0 <= cut <= pushed.len()
                &&& registry.broadcast(
                    targets.drop_last(),
                    event,
                    mid,
                    event_mid,
                    pushed.take(cut),
                )
                &&& #[trigger] mid.delivered(
                    targets.last(),
                    event_mid,
                    after,
                    event_after,
                    pushed.skip(cut),
                )
            };
        let earlier = pushed.take(last_cut);
        let (mid, event_mid, cut) = lemma_broadcast_split(
            registry,
            targets.drop_last(),
            place,
            event,
            last_before,
            event_last,
            earlier,
        );
        assert(targets.drop_last().take(place) =~= targets.take(place));
        assert(earlier.take(cut) =~= pushed.take(cut));
        lemma_broadcast_extend(
            mid,
            targets.drop_last().skip(place),
            event_mid,
            last_before,
            event_last,
            earlier.skip(cut),
            targets.last(),
            after,
            event_after,
            pushed.skip(last_cut),
        );
        assert(targets.drop_last().skip(place).push(targets.last()) =~= targets.skip(place));
        assert(earlier.skip(cut) + pushed.skip(last_cut) =~= pushed.skip(cut));
        (mid, event_mid, cut)
    }
}

/// A broadcast to one target is the delivery to it.
proof fn lemma_broadcast_to_one<M: Module>(
    registry: Registry<M>,
    target: ModuleId,
    event: M::Event,
    after: Registry<M>,
    event_after: M::Event,
    pushed: Seq<M::Event>,
)
    requires
        registry.broadcast(seq![target], event, after, event_after, pushed),
    ensures
        registry.delivered(target, event, after, event_after, pushed),
{
    let targets = seq![target];
    let (mid, event_mid, cut) = choose|mid: Registry<M>, event_mid: M::Event, cut: int|
        {
            &&& 0 <= cut <= pushed.len()
            &&& registry.broadcast(targets.drop_last(), event, mid, event_mid, pushed.take(cut))
            &&& #[trigger] mid.delivered(
                targets.last(),
                event_mid,
                after,
                event_after,
                pushed.skip(cut),
            )
        };
    assert(targets.drop_last().len() == 0);
    assert(pushed.take(cut).len() == 0);
    assert(pushed.skip(cut) =~= pushed);
}

/// The handlers of an event run one after the other, in the order of its
/// targets, each exactly once: whichever target one looks at, the targets
/// before it have all been served when its handler starts, on the registry
/// and the event as they left them, and the targets after it are served
/// only once its handler has returned. With [`law_delivery_targets`], which
/// says that the targets are the listeners in load order, this is the
/// order of delivery of every dispatch.
pub proof fn law_delivery_in_order<M: Module>(
    registry: Registry<M>,
    event: M::Event,
    after: Registry<M>,
    pushed: Seq<M::Event>,
    place: int,
)
    requires
        registry.dispatched(event, after, pushed),
        0 <= place < registry.targets(event.kind_spec()).len(),
    ensures
        exists|
            before: Registry<M>,
            event_before: M::Event,
            then: Registry<M>,
            event_then: M::Event,
            event_after: M::Event,
            from: int,
            to: int,
        |
            {
                &&& 0 <= from <= to <= pushed.len()
                &&& #[trigger] registry.broadcast(
                    registry.targets(event.kind_spec()).take(place),
                    event,
                    before,
                    event_before,
                    pushed.take(from),
                )
                &&& before.delivered(
                    registry.targets(event.kind_spec())[place],
                    event_before,
                    then,
                    event_then,
                    pushed.subrange(from, to),
                )
                &&& #[trigger] then.broadcast(
                    registry.targets(event.kind_spec()).skip(place + 1),
                    event_then,
                    after,
                    event_after,
                    pushed.skip(to),
                )
            },
{
    let targets = registry.targets(event.kind_spec());
    let event_after = choose|event_after: M::Event| #[trigger]
        registry.broadcast(targets, event, after, event_after, pushed);
    let (before, event_before, from) = lemma_broadcast_split(
        registry,
        targets,
        place,
        event,
        after,
        event_after,
        pushed,
    );
    let rest = targets.skip(place);
    let later = pushed.skip(from);
    let (then, event_then, served) = lemma_broadcast_split(
        before,
        rest,
        1,
        event_before,
        after,
        event_after,
        later,
    );
    assert(rest.take(1) =~= seq![targets[place]]);
    lemma_broadcast_to_one(
        before,
        targets[place],
        event_before,
        then,
        event_then,
        later.take(served),
    );
    let to = from + served;
    assert(later.take(served) =~= pushed.subrange(from, to));
    assert(rest.skip(1) =~= targets.skip(place + 1));
    assert(later.skip(served) =~= pushed.skip(to));
    assert(registry.broadcast(targets.take(place), event, before, event_before, pushed.take(from)));
    assert(then.broadcast(targets.skip(place + 1), event_then, after, event_after, pushed.skip(to)));
}

/// A round of one event is the dispatch of that event.
pub proof fn law_round_of_one_event<M: Module>(
    registry: Registry<M>,
    event: M::Event,
    after: Registry<M>,
    next: Seq<M::Event>,
)
    ensures
        registry.round(seq![event], after, next) <==> registry.dispatched(event, after, next),
{
    let batch = seq![event];
    assert(batch.drop_last().len() == 0);
    assert(batch.last() == event);
    if registry.round(batch, after, next) {
        let (mid, cut) = choose|mid: Registry<M>, cut: int|
            {
                &&& 0 <= cut <= next.len()
                &&& registry.round(batch.drop_last(), mid, next.take(cut))
                &&& #[trigger] mid.dispatched(batch.last(), after, next.skip(cut))
            };
        assert(next.take(cut).len() == 0);
        assert(next.skip(cut) =~= next);
    }
    if registry.dispatched(event, after, next) {
        assert(next.take(0) =~= Seq::<M::Event>::empty());
        assert(next.skip(0) =~= next);
        assert(registry.round(batch.drop_last(), registry, next.take(0)));
        assert(registry.dispatched(batch.last(), after, next.skip(0)));
    }
}

/// Rounds that lead somewhere begin with the round of what was pending.
proof fn lemma_first_round<M: Module>(
    registry: Registry<M>,
    pending: Seq<M::Event>,
    count: nat,
    after: Registry<M>,
    next: Seq<M::Event>,
) -> (first: (Registry<M>, Seq<M::Event>))
    requires
        count > 0,
        registry.rounds(pending, count, after, next),
    ensures
        pending.len() > 0,
        registry.round(pending, first.0, first.1),
        first.0.rounds(first.1, (count - 1) as nat, after, next),
    decreases count,
{
    let (mid, batch) = choose|mid: Registry<M>, batch: Seq<M::Event>|
        {
            &&& registry.rounds(pending, (count - 1) as nat, mid, batch)
            &&& batch.len() > 0
            &&& #[trigger] mid.round(batch, after, next)
        };
    if count == 1 {
        assert(after.rounds(next, 0, after, next));
        (after, next)
    } else {
        let first = lemma_first_round(registry, pending, (count - 1) as nat, mid, batch);
        assert(first.0.rounds(first.1, (count - 2) as nat, mid, batch));
        assert(first.0.rounds(first.1, (count - 1) as nat, after, next));
        first
    }
}

/// Whatever comes of running an event, it begins with the dispatch of that
/// event to its targets; what the handlers pushed is run after.
pub proof fn law_run_begins_with_dispatch<M: Module>(
    registry: Registry<M>,
    event: M::Event,
    after: Registry<M>,
)
    requires
        registry.ran(seq![event], after),
    ensures
        exists|mid: Registry<M>, next: Seq<M::Event>| #[trigger]
            registry.dispatched(event, mid, next) && mid.ran(next, after),
{
    let nothing = Seq::<M::Event>::empty();
    let count = choose|count: nat| #[trigger] registry.rounds(seq![event], count, after, nothing);
    assert(count > 0) by {
        if count == 0 {
            assert(seq![event].len() == 1);
        }
    }
    let first = lemma_first_round(registry, seq![event], count, after, nothing);
    law_round_of_one_event(registry, event, first.0, first.1);
    assert(first.0.ran(first.1, after));
    assert(registry.dispatched(event, first.0, first.1));
}

} // verus!
