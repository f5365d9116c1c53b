//! Laws of delivery: work may be delivered more than once, and a failed run may be
//! retried from the start. Neither duplicates nor changes anything.

use crate::github::consumer::projection_draft;
use crate::github::consumer::GitHubConsumer;
use crate::model::projection::ProjectionView;
use crate::model::projector::Router;
use crate::model::projector::RoutingHinter;
use crate::model::routing::Consumer;
use crate::model::routing::RoutingDecisionView;
use crate::model::routing::RoutingHintView;
use crate::model::routing::RoutingTraceView;
use crate::model::seqs::lookup;
use crate::model::skill::TopicOwnershipView;
use crate::provider::routing::RecordingConsumer;
use crate::worker::jobs::stored_ownerships;
use crate::worker::jobs::with_hints;
use crate::worker::jobs::with_ownerships;
use crate::worker::replay::with_projections;
use crate::worker::route::with_routes;
use crate::worker::route::with_traces;
use vstd::prelude::*;

verus! {

/// What is to be stored of an item, if anything: a record under its key.
type Entry<V> = Option<(Seq<char>, V)>;

/// The given entries stored one after the other.
spec fn stored_all<V>(m: Map<Seq<char>, V>, entries: Seq<Entry<V>>) -> Map<Seq<char>, V>
    decreases entries.len(),
{
    if entries.len() == 0 {
        m
    } else {
        let before = stored_all(m, entries.drop_last());
        match entries.last() {
            Some((key, record)) => before.insert(key, record),
            None => before,
        }
    }
}

/// Whether an entry stores under a key.
spec fn stores_under<V>(entry: Entry<V>, key: Seq<char>) -> bool {
    entry matches Some(stored) && stored.0 == key
}

/// Whether one of the entries stores under a key.
spec fn stores<V>(entries: Seq<Entry<V>>, key: Seq<char>) -> bool {
    exists|i: int| 0 <= i < entries.len() && stores_under(#[trigger] entries[i], key)
}

/// The last entry stores under a key, or one before it does, if any does.
proof fn lemma_stores_front<V>(entries: Seq<Entry<V>>, key: Seq<char>)
    requires
        entries.len() > 0,
    ensures
        stores(entries, key) <==> stores(entries.drop_last(), key) || stores_under(
            entries.last(),
            key,
        ),
{
    let front = entries.drop_last();
    if stores(entries, key) {
        let i = choose|i: int| 0 <= i < entries.len() && stores_under(#[trigger] entries[i], key);
        if i < front.len() {
            assert(front[i] == entries[i]);
        }
    }
    if stores(front, key) {
        let i = choose|i: int| 0 <= i < front.len() && stores_under(#[trigger] front[i], key);
        assert(entries[i] == front[i]);
    }
    if stores_under(entries.last(), key) {
        assert(stores_under(entries[entries.len() - 1], key));
    }
}

/// What is stored under a key depends on the map before only where no entry
/// stores under it, and is then what the map held.
proof fn lemma_stored_under<V>(
    a: Map<Seq<char>, V>,
    b: Map<Seq<char>, V>,
    entries: Seq<Entry<V>>,
    key: Seq<char>,
)
    ensures
        stores(entries, key) ==> lookup(stored_all(a, entries), key) == lookup(
            stored_all(b, entries),
            key,
        ),
        !stores(entries, key) ==> lookup(stored_all(a, entries), key) == lookup(a, key),
        !stores(entries, key) ==> lookup(stored_all(b, entries), key) == lookup(b, key),
    decreases entries.len(),
{
    if entries.len() > 0 {
        lemma_stores_front(entries, key);
        lemma_stored_under(a, b, entries.drop_last(), key);
    }
}

/// Entries stored again, after a part of them was stored already, leave what
/// storing them once does.
proof fn lemma_stored_again<V>(m: Map<Seq<char>, V>, entries: Seq<Entry<V>>, n: int)
    requires
        0 <= n <= entries.len(),
    ensures
        stored_all(stored_all(m, entries.take(n)), entries) == stored_all(m, entries),
{
    let part = entries.take(n);
    let once = stored_all(m, part);
    let left = stored_all(once, entries);
    let right = stored_all(m, entries);
    assert forall|key: Seq<char>| lookup(left, key) == #[trigger] lookup(right, key) by {
        if stores(part, key) {
            let i = choose|i: int| 0 <= i < part.len() && stores_under(#[trigger] part[i], key);
            assert(entries[i] == part[i]);
        }
        lemma_stored_under(m, m, part, key);
        lemma_stored_under(once, m, entries, key);
    }
    assert forall|key: Seq<char>|
        left.contains_key(key) == #[trigger] right.contains_key(key) && (left.contains_key(key)
            ==> left[key] == right[key]) by {
        assert(lookup(left, key) == lookup(right, key));
    }
    assert(left =~= right);
}

/// What storing each projection writes, in order.
spec fn projection_entries(
    items: Seq<ProjectionView>,
) -> Seq<Entry<ProjectionView>> {
    items.map_values(
        |item: ProjectionView|
            Some((item.message_id, item)),
    )
}

proof fn lemma_projection_entries(
    m: Map<Seq<char>, ProjectionView>,
    items: Seq<ProjectionView>,
)
    ensures
        with_projections(m, items) == stored_all(m, projection_entries(items)),
    decreases items.len(),
{
    if items.len() > 0 {
        lemma_projection_entries(m, items.drop_last());
        assert(projection_entries(items).drop_last() =~= projection_entries(
            items.drop_last(),
        ));
    }
}

/// Storing the projections of a log, after some of them were stored already, gives
/// what storing them once does.
pub proof fn projections_survive_redelivery(
    m: Map<Seq<char>, ProjectionView>,
    items: Seq<ProjectionView>,
    n: int,
)
    requires
        0 <= n <= items.len(),
    ensures
        with_projections(
            with_projections(m, items.take(n)),
            items,
        ) == with_projections(m, items),
{
    let entries = projection_entries(items);
    lemma_projection_entries(m, items.take(n));
    lemma_projection_entries(m, items);
    lemma_projection_entries(with_projections(m, items.take(n)), items);
    assert(projection_entries(items.take(n)) =~= entries.take(n));
    lemma_stored_again(m, entries, n);
}

/// What storing each ownership writes, in order.
spec fn ownership_entries(
    items: Seq<TopicOwnershipView>,
) -> Seq<Entry<TopicOwnershipView>> {
    items.map_values(
        |item: TopicOwnershipView|
            Some((item.topic, item)),
    )
}

proof fn lemma_ownership_entries(
    m: Map<Seq<char>, TopicOwnershipView>,
    items: Seq<TopicOwnershipView>,
)
    ensures
        with_ownerships(m, items) == stored_all(m, ownership_entries(items)),
    decreases items.len(),
{
    if items.len() > 0 {
        lemma_ownership_entries(m, items.drop_last());
        assert(ownership_entries(items).drop_last() =~= ownership_entries(
            items.drop_last(),
        ));
    }
}

/// Storing a skill index, after part of it was stored already, gives what storing it
/// once does.
pub proof fn ownerships_survive_redelivery(
    m: Map<Seq<char>, TopicOwnershipView>,
    items: Seq<TopicOwnershipView>,
    n: int,
)
    requires
        0 <= n <= items.len(),
    ensures
        with_ownerships(
            with_ownerships(m, items.take(n)),
            items,
        ) == with_ownerships(m, items),
{
    let entries = ownership_entries(items);
    lemma_ownership_entries(m, items.take(n));
    lemma_ownership_entries(m, items);
    lemma_ownership_entries(with_ownerships(m, items.take(n)), items);
    assert(ownership_entries(items.take(n)) =~= entries.take(n));
    lemma_stored_again(m, entries, n);
}

/// What storing each route writes, in order.
spec fn route_entries<R: Router>(
    router: &R,
    projections: Map<Seq<char>, ProjectionView>,
    items: Seq<Seq<char>>,
) -> Seq<Entry<RoutingDecisionView>> {
    items.map_values(
        |item: Seq<char>|
            match lookup(projections, item) {
                Some(projection) => {
                    let decision = router.route_spec(projection).0;
                    Some((decision.message_id, decision))
                },
                None => None,
            },
    )
}

proof fn lemma_route_entries<R: Router>(
    router: &R,
    projections: Map<Seq<char>, ProjectionView>,
    m: Map<Seq<char>, RoutingDecisionView>,
    items: Seq<Seq<char>>,
)
    ensures
        with_routes(router, projections, m, items) == stored_all(
            m,
            route_entries(router, projections, items),
        ),
    decreases items.len(),
{
    if items.len() > 0 {
        lemma_route_entries(router, projections, m, items.drop_last());
        assert(route_entries(router, projections, items).drop_last() =~= route_entries(
            router, projections, items.drop_last(),
        ));
    }
}

/// A routing run retried from the start, after a part of it was decided, records what
/// one run does: no decision is duplicated.
pub proof fn decisions_survive_retry<R: Router>(
    router: &R,
    projections: Map<Seq<char>, ProjectionView>,
    m: Map<Seq<char>, RoutingDecisionView>,
    items: Seq<Seq<char>>,
    n: int,
)
    requires
        0 <= n <= items.len(),
    ensures
        with_routes(
            router, projections, with_routes(router, projections, m, items.take(n)),
            items,
        ) == with_routes(router, projections, m, items),
{
    let entries = route_entries(router, projections, items);
    lemma_route_entries(router, projections, m, items.take(n));
    lemma_route_entries(router, projections, m, items);
    lemma_route_entries(router, projections, with_routes(router, projections, m, items.take(n)), items);
    assert(route_entries(router, projections, items.take(n)) =~= entries.take(n));
    lemma_stored_again(m, entries, n);
}

/// What storing each trace writes, in order.
spec fn trace_entries<R: Router>(
    router: &R,
    projections: Map<Seq<char>, ProjectionView>,
    items: Seq<Seq<char>>,
) -> Seq<Entry<RoutingTraceView>> {
    items.map_values(
        |item: Seq<char>|
            match lookup(projections, item) {
                Some(projection) => {
                    let trace = router.route_spec(projection).1;
                    Some((trace.message_id, trace))
                },
                None => None,
            },
    )
}

proof fn lemma_trace_entries<R: Router>(
    router: &R,
    projections: Map<Seq<char>, ProjectionView>,
    m: Map<Seq<char>, RoutingTraceView>,
    items: Seq<Seq<char>>,
)
    ensures
        with_traces(router, projections, m, items) == stored_all(
            m,
            trace_entries(router, projections, items),
        ),
    decreases items.len(),
{
    if items.len() > 0 {
        lemma_trace_entries(router, projections, m, items.drop_last());
        assert(trace_entries(router, projections, items).drop_last() =~= trace_entries(
            router, projections, items.drop_last(),
        ));
    }
}

/// A routing run retried from the start, after a part of it was decided, records the
/// traces of one run.
pub proof fn traces_survive_retry<R: Router>(
    router: &R,
    projections: Map<Seq<char>, ProjectionView>,
    m: Map<Seq<char>, RoutingTraceView>,
    items: Seq<Seq<char>>,
    n: int,
)
    requires
        0 <= n <= items.len(),
    ensures
        with_traces(
            router, projections, with_traces(router, projections, m, items.take(n)),
            items,
        ) == with_traces(router, projections, m, items),
{
    let entries = trace_entries(router, projections, items);
    lemma_trace_entries(router, projections, m, items.take(n));
    lemma_trace_entries(router, projections, m, items);
    lemma_trace_entries(router, projections, with_traces(router, projections, m, items.take(n)), items);
    assert(trace_entries(router, projections, items.take(n)) =~= entries.take(n));
    lemma_stored_again(m, entries, n);
}

/// What storing each hint writes, in order.
spec fn hint_entries<H: RoutingHinter>(
    hinter: &H,
    projections: Map<Seq<char>, ProjectionView>,
    skills: Map<Seq<char>, TopicOwnershipView>,
    items: Seq<Seq<char>>,
) -> Seq<Entry<RoutingHintView>> {
    items.map_values(
        |item: Seq<char>|
            match lookup(projections, item) {
                Some(projection) => {
                    let hint = hinter.hint_spec(
                        projection,
                        stored_ownerships(skills, projection.topics),
                    );
                    Some((hint.message_id, hint))
                },
                None => None,
            },
    )
}

proof fn lemma_hint_entries<H: RoutingHinter>(
    hinter: &H,
    projections: Map<Seq<char>, ProjectionView>,
    skills: Map<Seq<char>, TopicOwnershipView>,
    m: Map<Seq<char>, RoutingHintView>,
    items: Seq<Seq<char>>,
)
    ensures
        with_hints(hinter, projections, skills, m, items) == stored_all(
            m,
            hint_entries(hinter, projections, skills, items),
        ),
    decreases items.len(),
{
    if items.len() > 0 {
        lemma_hint_entries(hinter, projections, skills, m, items.drop_last());
        assert(hint_entries(hinter, projections, skills, items).drop_last() =~= hint_entries(
            hinter, projections, skills, items.drop_last(),
        ));
    }
}

/// Building the hints of a log, after some of them were built already, gives what
/// building them once does.
pub proof fn hints_survive_redelivery<H: RoutingHinter>(
    hinter: &H,
    projections: Map<Seq<char>, ProjectionView>,
    skills: Map<Seq<char>, TopicOwnershipView>,
    m: Map<Seq<char>, RoutingHintView>,
    items: Seq<Seq<char>>,
    n: int,
)
    requires
        0 <= n <= items.len(),
    ensures
        with_hints(
            hinter, projections, skills, with_hints(hinter, projections, skills, m, items.take(n)),
            items,
        ) == with_hints(hinter, projections, skills, m, items),
{
    let entries = hint_entries(hinter, projections, skills, items);
    lemma_hint_entries(hinter, projections, skills, m, items.take(n));
    lemma_hint_entries(hinter, projections, skills, m, items);
    let part = with_hints(hinter, projections, skills, m, items.take(n));
    lemma_hint_entries(hinter, projections, skills, part, items);
    assert(hint_entries(hinter, projections, skills, items.take(n)) =~= entries.take(n));
    lemma_stored_again(m, entries, n);
}

/// A session's record stored twice is stored once.
pub proof fn an_upsert_is_idempotent<V>(records: Map<Seq<char>, V>, key: Seq<char>, record: V)
    ensures
        records.insert(key, record).insert(key, record) == records.insert(key, record),
        lookup(records.insert(key, record), key) == Some(record),
        forall|other: Seq<char>|
            other != key ==> #[trigger] lookup(records.insert(key, record), other) == lookup(
                records,
                other,
            ),
{
    assert(records.insert(key, record).insert(key, record) =~= records.insert(key, record));
}

/// A message dispatched to the recorder twice is recorded once.
pub proof fn recording_is_idempotent(
    before: &RecordingConsumer,
    between: &RecordingConsumer,
    after: &RecordingConsumer,
    decision: RoutingDecisionView,
    projection: ProjectionView,
)
    requires
        before.consumes(decision, projection, between, Ok(())),
        between.consumes(decision, projection, after, Ok(())),
    ensures
        after@ == between@,
{
    assert(after@ =~= between@);
}

/// A message dispatched to the drafter twice is drafted once.
pub proof fn drafting_is_idempotent(
    before: &GitHubConsumer,
    between: &GitHubConsumer,
    after: &GitHubConsumer,
    decision: RoutingDecisionView,
    projection: ProjectionView,
)
    requires
        before.consumes(decision, projection, between, Ok(())),
        between.consumes(decision, projection, after, Ok(())),
    ensures
        after@ == between@,
        after@[projection.message_id] == projection_draft(projection),
{
    assert(after@ =~= between@);
}

} // verus!
