//! Facts about registries that the engine's proofs lean on.

use crate::modules::engine::Module;
use crate::modules::events::EventKind;
use crate::modules::registry::{
    distinct, interests, subscribers_in, without, ModuleId, ModuleView, Registry,
};
use vstd::prelude::*;

verus! {

/// In a well-formed registry an identity is found where its entry stands.
pub proof fn lemma_index_of<M>(registry: Registry<M>, index: int)
    requires
        registry.wf(),
        0 <= index < registry.entries.len(),
    ensures
        registry.is_loaded(registry.entries[index].id),
        registry.index_of(registry.entries[index].id) == index,
        registry.entry(registry.entries[index].id) == registry.entries[index],
{
    let id = registry.entries[index].id;
    let found = registry.index_of(id);
    assert(registry.entries[found].id == id);
    if found < index {
        assert(registry.entries[found].id != registry.entries[index].id);
    } else if index < found {
        assert(registry.entries[index].id != registry.entries[found].id);
    }
}

/// Who subscribes depends on identities and tables alone, not on states or
/// handle counts.
pub proof fn lemma_subscribers_same_tables<M>(
    a: Seq<ModuleView<M>>,
    b: Seq<ModuleView<M>>,
    kind: EventKind,
)
    requires
        a.len() == b.len(),
        forall|i: int|
            0 <= i < a.len() ==> (#[trigger] a[i]).id == b[i].id && a[i].listeners
                == b[i].listeners,
    ensures
        subscribers_in(a, kind) == subscribers_in(b, kind),
    decreases a.len(),
{
    if a.len() > 0 {
        assert(a.last().id == b.last().id && a.last().listeners == b.last().listeners);
        assert forall|i: int| 0 <= i < a.drop_last().len() implies (#[trigger] a.drop_last()[i]).id
            == b.drop_last()[i].id && a.drop_last()[i].listeners == b.drop_last()[i].listeners by {
            assert(a[i].id == b[i].id && a[i].listeners == b[i].listeners);
        }
        lemma_subscribers_same_tables(a.drop_last(), b.drop_last(), kind);
    }
}

/// A subscriber is a loaded module that listens to the kind, and every such
/// module is a subscriber.
pub proof fn lemma_subscribers_are_listeners<M>(
    entries: Seq<ModuleView<M>>,
    kind: EventKind,
    id: ModuleId,
)
    ensures
        subscribers_in(entries, kind).contains(id) <==> exists|i: int|
            0 <= i < entries.len() && (#[trigger] entries[i]).id == id && entries[i].listens_to(
                kind,
            ),
    decreases entries.len(),
{
    let subs = subscribers_in(entries, kind);
    if entries.len() > 0 {
        let before = subscribers_in(entries.drop_last(), kind);
        lemma_subscribers_are_listeners(entries.drop_last(), kind, id);
        let last = entries.last();
        if subs.contains(id) {
            let p = choose|p: int| 0 <= p < subs.len() && subs[p] == id;
            if last.listens_to(kind) && p == before.len() {
                assert(entries[entries.len() - 1].id == id);
            } else {
                assert(before[p] == id);
                assert(before.contains(id));
                let i = choose|i: int|
                    0 <= i < entries.drop_last().len() && (#[trigger] entries.drop_last()[i]).id
                        == id && entries.drop_last()[i].listens_to(kind);
                assert(entries[i].id == id && entries[i].listens_to(kind));
            }
        }
        if exists|i: int|
            0 <= i < entries.len() && (#[trigger] entries[i]).id == id && entries[i].listens_to(
                kind,
            ) {
            let i = choose|i: int|
                0 <= i < entries.len() && (#[trigger] entries[i]).id == id
                    && entries[i].listens_to(kind);
            if i == entries.len() - 1 {
                assert(subs == before.push(id));
                assert(subs[before.len() as int] == id);
            } else {
                assert(entries.drop_last()[i].id == id && entries.drop_last()[i].listens_to(kind));
                assert(before.contains(id));
                let p = choose|p: int| 0 <= p < before.len() && before[p] == id;
                assert(subs[p] == id);
            }
        }
    }
}

/// Keeping first mentions keeps a kind exactly if it was named.
pub proof fn lemma_distinct_contains(kinds: Seq<EventKind>, kind: EventKind)
    ensures
        distinct(kinds).contains(kind) <==> kinds.contains(kind),
    decreases kinds.len(),
{
    if kinds.len() > 0 {
        let before = distinct(kinds.drop_last());
        lemma_distinct_contains(kinds.drop_last(), kind);
        if distinct(kinds).contains(kind) {
            let p = choose|p: int| 0 <= p < distinct(kinds).len() && distinct(kinds)[p] == kind;
            if p < before.len() {
                assert(before[p] == kind);
                assert(before.contains(kind));
                assert(kinds.drop_last().contains(kind));
                let q = choose|q: int|
                    0 <= q < kinds.drop_last().len() && kinds.drop_last()[q] == kind;
                assert(kinds[q] == kind);
            } else {
                assert(kinds[kinds.len() - 1] == kind);
            }
        }
        if kinds.contains(kind) {
            let q = choose|q: int| 0 <= q < kinds.len() && kinds[q] == kind;
            if q < kinds.len() - 1 {
                assert(kinds.drop_last()[q] == kind);
                assert(kinds.drop_last().contains(kind));
                assert(before.contains(kind));
                let p = choose|p: int| 0 <= p < before.len() && before[p] == kind;
                assert(distinct(kinds)[p] == kind);
            } else if !before.contains(kind) {
                assert(distinct(kinds)[before.len() as int] == kind);
            }
        }
    }
}

/// Keeping first mentions leaves no kind twice.
pub proof fn lemma_distinct_no_duplicates(kinds: Seq<EventKind>)
    ensures
        distinct(kinds).no_duplicates(),
    decreases kinds.len(),
{
    if kinds.len() > 0 {
        lemma_distinct_no_duplicates(kinds.drop_last());
    }
}

/// Leaving out an identity that does not occur changes nothing.
pub proof fn lemma_without_absent(ids: Seq<ModuleId>, id: ModuleId)
    requires
        !ids.contains(id),
    ensures
        without(ids, id) == ids,
    decreases ids.len(),
{
    if ids.len() > 0 {
        assert(ids[ids.len() - 1] != id);
        assert forall|i: int| 0 <= i < ids.drop_last().len() implies ids.drop_last()[i] != id by {
            assert(ids[i] != id);
        }
        lemma_without_absent(ids.drop_last(), id);
        assert(ids.drop_last().push(ids.last()) =~= ids);
    } else {
        assert(ids =~= Seq::empty());
    }
}

/// Nothing of an identity is left once it has been left out.
pub proof fn lemma_without_gone(ids: Seq<ModuleId>, id: ModuleId)
    ensures
        !without(ids, id).contains(id),
    decreases ids.len(),
{
    if ids.len() > 0 {
        lemma_without_gone(ids.drop_last(), id);
        let before = without(ids.drop_last(), id);
        if without(ids, id).contains(id) {
            let p = choose|p: int| 0 <= p < without(ids, id).len() && without(ids, id)[p] == id;
            if p < before.len() {
                assert(before[p] == id);
            }
        }
    }
}

/// When a module leaves the registry, it leaves the subscribers of every
/// kind, and the others keep their order.
pub proof fn lemma_subscribers_remove<M>(entries: Seq<ModuleView<M>>, index: int, kind: EventKind)
    requires
        0 <= index < entries.len(),
        forall|i: int, j: int|
            0 <= i < j < entries.len() ==> (#[trigger] entries[i]).id != (#[trigger] entries[j]).id,
    ensures
        subscribers_in(entries.remove(index), kind) == without(
            subscribers_in(entries, kind),
            entries[index].id,
        ),
    decreases entries.len(),
{
    let id = entries[index].id;
    let rest = entries.drop_last();
    let last = entries.last();
    if index == entries.len() - 1 {
        assert(entries.remove(index) =~= rest);
        if subscribers_in(rest, kind).contains(id) {
            lemma_subscribers_are_listeners(rest, kind, id);
            let i = choose|i: int|
                0 <= i < rest.len() && (#[trigger] rest[i]).id == id && rest[i].listens_to(kind);
            assert(entries[i].id != entries[index].id);
        }
        lemma_without_absent(subscribers_in(rest, kind), id);
        if last.listens_to(kind) {
            assert(subscribers_in(entries, kind).drop_last() =~= subscribers_in(rest, kind));
        }
    } else {
        assert(entries.remove(index).drop_last() =~= rest.remove(index));
        assert(entries.remove(index).last() == last);
        assert(rest[index] == entries[index]);
        assert forall|i: int, j: int| 0 <= i < j < rest.len() implies (#[trigger] rest[i]).id != (
        #[trigger] rest[j]).id by {
            assert(entries[i].id != entries[j].id);
        }
        lemma_subscribers_remove(rest, index, kind);
        assert(entries[index].id != entries[entries.len() - 1].id);
        if last.listens_to(kind) {
            assert(subscribers_in(entries, kind).drop_last() =~= subscribers_in(rest, kind));
        }
    }
}

/// Where identities and tables are kept, the tables stay the declared ones.
pub proof fn lemma_declared_kept<M: Module>(registry: Registry<M>, after: Registry<M>)
    requires
        after.entries.len() == registry.entries.len(),
        forall|i: int|
            0 <= i < registry.entries.len() ==> (#[trigger] after.entries[i]).id
                == registry.entries[i].id && after.entries[i].listeners
                == registry.entries[i].listeners,
        registry.declared(),
    ensures
        after.declared(),
{
    assert forall|i: int| 0 <= i < after.entries.len() implies (
    #[trigger] after.entries[i]).listeners == distinct(interests::<M>(after.entries[i].id)) by {
        assert(registry.entries[i].listeners == distinct(
            interests::<M>(registry.entries[i].id),
        ));
    }
}

/// A broadcast grows by one delivery at its end.
pub proof fn lemma_broadcast_extend<M: Module>(
    before: Registry<M>,
    targets: Seq<ModuleId>,
    event: M::Event,
    mid: Registry<M>,
    event_mid: M::Event,
    first: Seq<M::Event>,
    id: ModuleId,
    after: Registry<M>,
    event_after: M::Event,
    last: Seq<M::Event>,
)
    requires
        before.broadcast(targets, event, mid, event_mid, first),
        mid.delivered(id, event_mid, after, event_after, last),
    ensures
        before.broadcast(targets.push(id), event, after, event_after, first + last),
{
    let step = targets.push(id);
    let pushed = first + last;
    let cut = first.len() as int;
    assert(step.drop_last() =~= targets);
    assert(pushed.take(cut) =~= first);
    assert(pushed.skip(cut) =~= last);
    assert(mid.delivered(step.last(), event_mid, after, event_after, pushed.skip(cut)));
}

/// A round grows by the dispatch of one more event at its end.
pub proof fn lemma_round_extend<M: Module>(
    before: Registry<M>,
    batch: Seq<M::Event>,
    mid: Registry<M>,
    first: Seq<M::Event>,
    event: M::Event,
    after: Registry<M>,
    last: Seq<M::Event>,
)
    requires
        before.round(batch, mid, first),
        mid.dispatched(event, after, last),
    ensures
        before.round(batch.push(event), after, first + last),
{
    let step = batch.push(event);
    let next = first + last;
    let cut = first.len() as int;
    assert(step.drop_last() =~= batch);
    assert(next.take(cut) =~= first);
    assert(next.skip(cut) =~= last);
    assert(mid.dispatched(step.last(), after, next.skip(cut)));
}

} // verus!
