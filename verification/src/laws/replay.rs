//! Laws of replay: the same log gives the same stores, and every message and every
//! conversation is accounted for.

use crate::cli::commands::missing;
use crate::cli::commands::unmentioned;
use crate::model::message::MessageEnvelope;
use crate::model::message::MessageEnvelopeView;
use crate::model::message_log::conversations_of;
use crate::model::projection::Projection;
use crate::model::projection::ProjectionView;
use crate::model::projector::DeveloperSnapshotBuilder;
use crate::model::projector::Projector;
use crate::model::projector::RoutingHinter;
use crate::model::projector::ScopeProjector;
use crate::model::projector::SkillBuilder;
use crate::model::projector::WarmupBuilder;
use crate::model::scope::ScopeView;
use crate::model::seqs::lookup;
use crate::model::seqs::views;
use crate::model::skill::DeveloperSnapshotRequestView;
use crate::model::skill::TopicOwnershipView;
use crate::provider::caching::CachingProjector;
use crate::provider::developer::SkillDeveloperSnapshotter;
use crate::provider::hint::SkillRoutingHinter;
use crate::provider::mock::keyword_projection;
use crate::provider::mock::MockProjector;
use crate::provider::scope::MockScopeProjector;
use crate::provider::skill::MessageSkillBuilder;
use crate::provider::warmup::MockWarmupBuilder;
use crate::runtime::cache::Cache;
use crate::runtime::cache::CacheKey;
use crate::runtime::cache::CachedMemory;
use crate::runtime::frame::Triple;
use crate::runtime::step::Step;
use crate::text::lowercase;
use crate::worker::jobs::stored;
use crate::worker::jobs::with_hints;
use crate::worker::replay::developers_of;
use crate::worker::replay::projects;
use crate::worker::replay::scopes_of;
use crate::worker::replay::warmups_of;
use crate::worker::replay::with_projections;
use crate::worker::replay::ProjectionStrategy;
use crate::worker::replay::ReplayStoresView;
use crate::worker::sessions::ids_of;
use crate::worker::sessions::sessions_of;
use vstd::prelude::*;

verus! {

/// Whether what a projector gives is a function of the message.
pub open spec fn is_function<P: Projector>(f: spec_fn(MessageEnvelopeView) -> ProjectionView) -> bool {
    forall|s: P, m: MessageEnvelope, t: P::Memory, o: Projection| #[trigger]
        s.runs(&m, t, &o) ==> o@ == f(m@)
}

proof fn lemma_projects_function<P: Projector>(
    before: P,
    messages: Seq<MessageEnvelope>,
    after: P,
    outs: Seq<Projection>,
    f: spec_fn(MessageEnvelopeView) -> ProjectionView,
)
    requires
        is_function::<P>(f),
        projects(before, messages, after, outs),
    ensures
        views(outs) == views(messages).map_values(f),
    decreases messages.len(),
{
    if messages.len() > 0 {
        let between = choose|between: P|
            projects(before, messages.drop_last(), between, outs.drop_last())
                && #[trigger] between.runs(&messages.last(), after.memory(), &outs.last());
        lemma_projects_function(before, messages.drop_last(), between, outs.drop_last(), f);
        assert(views(outs).drop_last() =~= views(outs.drop_last()));
        assert(views(messages).drop_last() =~= views(messages.drop_last()));
        assert(views(messages).map_values(f) =~= views(messages).drop_last().map_values(f).push(
            f(messages.last()@),
        ));
        assert(views(outs) =~= views(outs).drop_last().push(outs.last()@));
    } else {
        assert(views(outs) =~= views(messages).map_values(f));
    }
}

/// Replaying the same log with a projector that is a function of the message
/// always gives the same stores.
pub proof fn replay_is_deterministic<
    P: Projector,
    S: ScopeProjector,
    W: WarmupBuilder,
    K: SkillBuilder,
    H: RoutingHinter,
    D: DeveloperSnapshotBuilder,
>(
    a: ProjectionStrategy<P, S, W, K, H, D>,
    a_after: ProjectionStrategy<P, S, W, K, H, D>,
    a_stores: ReplayStoresView,
    b: ProjectionStrategy<P, S, W, K, H, D>,
    b_after: ProjectionStrategy<P, S, W, K, H, D>,
    b_stores: ReplayStoresView,
    log: Seq<MessageEnvelopeView>,
    f: spec_fn(MessageEnvelopeView) -> ProjectionView,
)
    requires
        is_function::<P>(f),
        b.scoper == a.scoper,
        b.builder == a.builder,
        b.skill_builder == a.skill_builder,
        b.hinter == a.hinter,
        b.snapshotter == a.snapshotter,
        a.replays(log, &a_after, a_stores),
        b.replays(log, &b_after, b_stores),
    ensures
        a_stores == b_stores,
{
    let (m, o) = choose|messages: Seq<MessageEnvelope>, outs: Seq<Projection>|
        views(messages) == log && #[trigger] projects(
            a.projector,
            messages,
            a_after.projector,
            outs,
        ) && a_stores == a.derived(log, with_projections(Map::empty(), views(outs)));
    let (n, q) = choose|messages: Seq<MessageEnvelope>, outs: Seq<Projection>|
        views(messages) == log && #[trigger] projects(
            b.projector,
            messages,
            b_after.projector,
            outs,
        ) && b_stores == b.derived(log, with_projections(Map::empty(), views(outs)));
    lemma_projects_function(a.projector, m, a_after.projector, o, f);
    lemma_projects_function(b.projector, n, b_after.projector, q, f);
}

/// The mock projector is a function of the message.
pub proof fn the_mock_is_a_function()
    ensures
        is_function::<MockProjector>(
            |m: MessageEnvelopeView| keyword_projection(m.id, lowercase(m.body)),
        ),
{
}

/// Where the projection of a message is kept.
spec fn place_of<M>(memory: CachedMemory<M, Projection>, message: MessageEnvelope) -> Triple {
    (memory.kind, memory.version, message.cache_key_spec())
}

/// What is kept of a message, if anything.
spec fn kept_of<M>(
    memory: CachedMemory<M, Projection>,
    message: MessageEnvelope,
) -> Option<ProjectionView> {
    match lookup(memory.entries, place_of(memory, message)) {
        Some(projection) => Some(projection@),
        None => None,
    }
}

/// What projecting through a memoizing projector leaves: each message's entry is
/// kept with what was given, and no earlier entry changed.
proof fn lemma_projects_fill<
    S: Step<In = MessageEnvelope, Out = Projection>,
    C: Cache<Projection>,
>(
    before: CachingProjector<S, C>,
    messages: Seq<MessageEnvelope>,
    after: CachingProjector<S, C>,
    outs: Seq<Projection>,
)
    requires
        projects(before, messages, after, outs),
    ensures
        after.memory().version == before.memory().version,
        after.memory().kind == before.memory().kind,
        outs.len() == messages.len(),
        forall|i: int|
            0 <= i < messages.len() ==> #[trigger] kept_of(after.memory(), messages[i]) == Some(
                outs[i]@,
            ),
    decreases messages.len(),
{
    if messages.len() > 0 {
        let front = messages.drop_last();
        let last = messages.last();
        let between = choose|between: CachingProjector<S, C>|
            projects(before, front, between, outs.drop_last()) && #[trigger] between.runs(
                &last,
                after.memory(),
                &outs.last(),
            );
        lemma_projects_fill(before, front, between, outs.drop_last());
        let held = between.memory();
        let now = after.memory();
        let place = place_of(held, last);
        assert(between.inner.runs(&last, now, &outs.last()));
        assert(between.inner.entry_of(&last) == place);
        if !held.entries.contains_key(place) {
            let kept = choose|kept: Projection|
                cloned(outs.last(), kept) && now.entries == #[trigger] held.entries.insert(
                    place,
                    kept,
                );
            assert(kept@ == outs.last()@);
        }
        assert forall|i: int| 0 <= i < messages.len() implies #[trigger] kept_of(now, messages[i])
            == Some(outs[i]@) by {
            if i < front.len() {
                assert(front[i] == messages[i]);
                assert(outs.drop_last()[i] == outs[i]);
                assert(kept_of(held, front[i]) == Some(outs[i]@));
                assert(held.entries.contains_key(place_of(held, front[i])));
            } else {
                assert(messages[i] == last);
            }
        }
    }
}

/// Projecting messages whose entries are all kept gives what was kept, and
/// remembers nothing new.
proof fn lemma_projects_hit<
    S: Step<In = MessageEnvelope, Out = Projection>,
    C: Cache<Projection>,
>(
    before: CachingProjector<S, C>,
    messages: Seq<MessageEnvelope>,
    after: CachingProjector<S, C>,
    outs: Seq<Projection>,
)
    requires
        projects(before, messages, after, outs),
        forall|i: int|
            0 <= i < messages.len() ==> (#[trigger] kept_of(before.memory(), messages[i])) is Some,
    ensures
        after.memory() == before.memory(),
        outs.len() == messages.len(),
        forall|i: int|
            0 <= i < messages.len() ==> #[trigger] kept_of(before.memory(), messages[i]) == Some(
                outs[i]@,
            ),
    decreases messages.len(),
{
    if messages.len() > 0 {
        let front = messages.drop_last();
        let last = messages.last();
        let memory = before.memory();
        let between = choose|between: CachingProjector<S, C>|
            projects(before, front, between, outs.drop_last()) && #[trigger] between.runs(
                &last,
                after.memory(),
                &outs.last(),
            );
        assert forall|i: int| 0 <= i < front.len() implies (#[trigger] kept_of(
            memory,
            front[i],
        )) is Some by {
            assert(front[i] == messages[i]);
            assert(kept_of(memory, messages[i]) is Some);
        }
        lemma_projects_hit(before, front, between, outs.drop_last());
        assert(kept_of(memory, messages[messages.len() - 1]) is Some);
        assert(messages[messages.len() - 1] == last);
        assert(between.inner.runs(&last, after.memory(), &outs.last()));
        assert(between.inner.entry_of(&last) == place_of(memory, last));
        assert forall|i: int| 0 <= i < messages.len() implies #[trigger] kept_of(
            memory,
            messages[i],
        ) == Some(outs[i]@) by {
            if i < front.len() {
                assert(front[i] == messages[i]);
                assert(outs.drop_last()[i] == outs[i]);
                assert(kept_of(memory, front[i]) == Some(outs[i]@));
            } else {
                assert(messages[i] == last);
            }
        }
    }
}

/// Replaying again through a memoizing projector gives the same stores, and it
/// remembers nothing new: whatever the inner projector answers, its first answer is kept.
pub proof fn a_memoized_replay_is_frozen<
    I: Step<In = MessageEnvelope, Out = Projection>,
    C: Cache<Projection>,
    S: ScopeProjector,
    W: WarmupBuilder,
    K: SkillBuilder,
    H: RoutingHinter,
    D: DeveloperSnapshotBuilder,
>(
    before: ProjectionStrategy<CachingProjector<I, C>, S, W, K, H, D>,
    between: ProjectionStrategy<CachingProjector<I, C>, S, W, K, H, D>,
    after: ProjectionStrategy<CachingProjector<I, C>, S, W, K, H, D>,
    log: Seq<MessageEnvelopeView>,
    first: ReplayStoresView,
    second: ReplayStoresView,
)
    requires
        before.replays(log, &between, first),
        between.replays(log, &after, second),
    ensures
        second == first,
        after.projector.memory() == between.projector.memory(),
{
    let (m, o) = choose|messages: Seq<MessageEnvelope>, outs: Seq<Projection>|
        views(messages) == log && #[trigger] projects(
            before.projector,
            messages,
            between.projector,
            outs,
        ) && first == before.derived(log, with_projections(Map::empty(), views(outs)));
    let (n, q) = choose|messages: Seq<MessageEnvelope>, outs: Seq<Projection>|
        views(messages) == log && #[trigger] projects(
            between.projector,
            messages,
            after.projector,
            outs,
        ) && second == between.derived(log, with_projections(Map::empty(), views(outs)));
    lemma_projects_fill(before.projector, m, between.projector, o);
    assert(m.len() == log.len() && n.len() == log.len()) by {
        assert(views(m).len() == m.len());
        assert(views(n).len() == n.len());
    }
    let memory = between.projector.memory();
    assert forall|i: int| 0 <= i < n.len() implies #[trigger] kept_of(memory, n[i]) == Some(
        o[i]@,
    ) by {
        assert(views(m)[i] == views(n)[i]);
        assert(m[i]@ == n[i]@);
        assert(m[i]@.id == n[i]@.id && m[i]@.body == n[i]@.body);
        assert(place_of(memory, m[i]) == place_of(memory, n[i]));
        assert(kept_of(memory, m[i]) == Some(o[i]@));
    }
    lemma_projects_hit(between.projector, n, after.projector, q);
    assert forall|i: int| 0 <= i < o.len() implies views(o)[i] == views(q)[i] by {
        assert(kept_of(memory, n[i]) == Some(o[i]@));
        assert(kept_of(memory, n[i]) == Some(q[i]@));
    }
    assert(views(o) =~= views(q));
}

/// Whether a projector answers under the id of the message it is asked about.
pub open spec fn keeps_ids<P: Projector>() -> bool {
    forall|s: P, m: MessageEnvelope, t: P::Memory, o: Projection| #[trigger]
        s.runs(&m, t, &o) ==> o@.message_id == m@.id
}

proof fn lemma_projects_ids<P: Projector>(
    before: P,
    messages: Seq<MessageEnvelope>,
    after: P,
    outs: Seq<Projection>,
)
    requires
        keeps_ids::<P>(),
        projects(before, messages, after, outs),
    ensures
        outs.len() == messages.len(),
        forall|i: int| 0 <= i < outs.len() ==> (#[trigger] outs[i])@.message_id == messages[i]@.id,
    decreases messages.len(),
{
    if messages.len() > 0 {
        let between = choose|between: P|
            projects(before, messages.drop_last(), between, outs.drop_last())
                && #[trigger] between.runs(&messages.last(), after.memory(), &outs.last());
        lemma_projects_ids(before, messages.drop_last(), between, outs.drop_last());
        assert forall|i: int| 0 <= i < outs.len() implies (#[trigger] outs[i])@.message_id
            == messages[i]@.id by {
            if i < outs.len() - 1 {
                assert(outs.drop_last()[i] == outs[i]);
                assert(messages.drop_last()[i] == messages[i]);
            }
        }
    }
}

/// Whether every stored projection is stored under its own id.
pub open spec fn well_keyed(projections: Map<Seq<char>, ProjectionView>) -> bool {
    forall|id: Seq<char>| #[trigger]
        projections.contains_key(id) ==> projections[id].message_id == id
}

proof fn lemma_with_projections(fresh: Seq<ProjectionView>, id: Seq<char>)
    ensures
        well_keyed(with_projections(Map::empty(), fresh)),
        with_projections(Map::empty(), fresh).contains_key(id) <==> exists|i: int|
            0 <= i < fresh.len() && (#[trigger] fresh[i]).message_id == id,
    decreases fresh.len(),
{
    if fresh.len() > 0 {
        let front = fresh.drop_last();
        lemma_with_projections(front, id);
        if exists|i: int| 0 <= i < fresh.len() && (#[trigger] fresh[i]).message_id == id {
            let i = choose|i: int| 0 <= i < fresh.len() && (#[trigger] fresh[i]).message_id == id;
            if i < front.len() {
                assert(front[i] == fresh[i]);
            }
        }
        if exists|i: int| 0 <= i < front.len() && (#[trigger] front[i]).message_id == id {
            let i = choose|i: int| 0 <= i < front.len() && (#[trigger] front[i]).message_id == id;
            assert(fresh[i] == front[i]);
        }
        assert(fresh[fresh.len() - 1] == fresh.last());
    }
}

proof fn lemma_with_hints(
    hinter: &SkillRoutingHinter,
    projections: Map<Seq<char>, ProjectionView>,
    skills: Map<Seq<char>, TopicOwnershipView>,
    ids: Seq<Seq<char>>,
    id: Seq<char>,
)
    requires
        well_keyed(projections),
    ensures
        with_hints(hinter, projections, skills, Map::empty(), ids).contains_key(id) <==> (
        projections.contains_key(id) && ids.contains(id)),
    decreases ids.len(),
{
    if ids.len() > 0 {
        let front = ids.drop_last();
        lemma_with_hints(hinter, projections, skills, front, id);
        if ids.contains(id) {
            let i = choose|i: int| 0 <= i < ids.len() && ids[i] == id;
            if i < front.len() {
                assert(front[i] == id);
            }
        }
        if front.contains(id) {
            let i = choose|i: int| 0 <= i < front.len() && front[i] == id;
            assert(ids[i] == id);
        }
        assert(ids[ids.len() - 1] == ids.last());
    }
}

/// Whether a session has the given conversation.
spec fn has_session(sessions: Seq<DeveloperSnapshotRequestView>, conversation: Seq<char>) -> bool {
    exists|i: int| 0 <= i < sessions.len() && (#[trigger] sessions[i]).conversation == conversation
}

proof fn lemma_has_session_front(
    sessions: Seq<DeveloperSnapshotRequestView>,
    conversation: Seq<char>,
)
    requires
        sessions.len() > 0,
    ensures
        has_session(sessions, conversation) <==> has_session(sessions.drop_last(), conversation)
            || sessions.last().conversation == conversation,
{
    let front = sessions.drop_last();
    if has_session(sessions, conversation) {
        let i = choose|i: int|
            0 <= i < sessions.len() && (#[trigger] sessions[i]).conversation == conversation;
        if i < front.len() {
            assert(front[i] == sessions[i]);
        }
    }
    if has_session(front, conversation) {
        let i = choose|i: int|
            0 <= i < front.len() && (#[trigger] front[i]).conversation == conversation;
        assert(sessions[i] == front[i]);
    }
    assert(sessions[sessions.len() - 1] == sessions.last());
}

proof fn lemma_session_records(
    scoper: &MockScopeProjector,
    builder: &MockWarmupBuilder,
    snapshotter: &SkillDeveloperSnapshotter,
    projections: Map<Seq<char>, ProjectionView>,
    scopes: Map<Seq<char>, ScopeView>,
    skills: Map<Seq<char>, TopicOwnershipView>,
    sessions: Seq<DeveloperSnapshotRequestView>,
    c: Seq<char>,
)
    ensures
        scopes_of(scoper, projections, sessions).contains_key(c) <==> has_session(sessions, c),
        warmups_of(builder, projections, scopes, sessions).contains_key(c) <==> has_session(
            sessions,
            c,
        ),
        developers_of(snapshotter, projections, skills, sessions).contains_key(c) <==> has_session(
            sessions,
            c,
        ),
    decreases sessions.len(),
{
    if sessions.len() > 0 {
        lemma_has_session_front(sessions, c);
        lemma_session_records(
            scoper,
            builder,
            snapshotter,
            projections,
            scopes,
            skills,
            sessions.drop_last(),
            c,
        );
    }
}

proof fn lemma_sessions_of(log: Seq<MessageEnvelopeView>, c: Seq<char>)
    ensures
        has_session(sessions_of(log), c) <==> conversations_of(log).contains(c),
{
    let all = conversations_of(log);
    let sessions = sessions_of(log);
    if has_session(sessions, c) {
        let i = choose|i: int| 0 <= i < sessions.len() && (#[trigger] sessions[i]).conversation == c;
        assert(all[i] == c);
    }
    if all.contains(c) {
        let i = choose|i: int| 0 <= i < all.len() && all[i] == c;
        assert(sessions[i].conversation == c);
    }
}

/// A replay accounts for everything: a projection and a hint for each message of
/// the log, a scope, a warm-up and developers for each conversation, and nothing
/// for anything else.
pub proof fn replay_accounts_for_everything<P: Projector>(
    before: ProjectionStrategy<
        P,
        MockScopeProjector,
        MockWarmupBuilder,
        MessageSkillBuilder,
        SkillRoutingHinter,
        SkillDeveloperSnapshotter,
    >,
    after: ProjectionStrategy<
        P,
        MockScopeProjector,
        MockWarmupBuilder,
        MessageSkillBuilder,
        SkillRoutingHinter,
        SkillDeveloperSnapshotter,
    >,
    log: Seq<MessageEnvelopeView>,
    stores: ReplayStoresView,
    id: Seq<char>,
    conversation: Seq<char>,
)
    requires
        keeps_ids::<P>(),
        before.replays(log, &after, stores),
    ensures
        well_keyed(stores.projections),
        stores.projections.contains_key(id) <==> ids_of(log).contains(id),
        stores.hints.contains_key(id) <==> ids_of(log).contains(id),
        stores.scopes.contains_key(conversation) <==> conversations_of(log).contains(conversation),
        stores.warmups.contains_key(conversation) <==> conversations_of(log).contains(conversation),
        stores.developers.contains_key(conversation) <==> conversations_of(log).contains(
            conversation,
        ),
{
    let (m, o) = choose|messages: Seq<MessageEnvelope>, outs: Seq<Projection>|
        views(messages) == log && #[trigger] projects(
            before.projector,
            messages,
            after.projector,
            outs,
        ) && stores == before.derived(log, with_projections(Map::empty(), views(outs)));
    lemma_projects_ids(before.projector, m, after.projector, o);
    lemma_with_projections(views(o), id);
    assert(ids_of(log).contains(id) <==> stores.projections.contains_key(id)) by {
        if ids_of(log).contains(id) {
            let i = choose|i: int| 0 <= i < ids_of(log).len() && ids_of(log)[i] == id;
            assert(views(m)[i].id == id);
            assert(views(o)[i].message_id == id);
        }
        if stores.projections.contains_key(id) {
            let i = choose|i: int|
                0 <= i < views(o).len() && (#[trigger] views(o)[i]).message_id == id;
            assert(o[i]@.message_id == m[i]@.id);
            assert(views(m)[i] == m[i]@);
            assert(ids_of(log)[i] == id);
        }
    }
    lemma_with_hints(&before.hinter, stores.projections, stores.skills, ids_of(log), id);
    lemma_session_records(
        &before.scoper,
        &before.builder,
        &before.snapshotter,
        stores.projections,
        stores.scopes,
        stores.skills,
        sessions_of(log),
        conversation,
    );
    lemma_sessions_of(log, conversation);
}

/// The mock projector answers under the id of the message.
pub proof fn the_mock_keeps_ids()
    ensures
        keeps_ids::<MockProjector>(),
{
}

/// A conversation read from the cache reports the same messages as unprojected as
/// one derived anew.
pub proof fn cached_and_fresh_report_alike(
    projections: Map<Seq<char>, ProjectionView>,
    ids: Seq<Seq<char>>,
)
    requires
        well_keyed(projections),
    ensures
        unmentioned(ids, stored(projections, ids)) == missing(projections, ids),
{
    lemma_unmentioned(projections, ids, ids);
}

proof fn lemma_unmentioned(
    projections: Map<Seq<char>, ProjectionView>,
    ids: Seq<Seq<char>>,
    all: Seq<Seq<char>>,
)
    requires
        well_keyed(projections),
        forall|i: int| 0 <= i < ids.len() ==> all.contains(#[trigger] ids[i]),
    ensures
        unmentioned(ids, stored(projections, all)) == missing(projections, ids),
    decreases ids.len(),
{
    if ids.len() > 0 {
        let front = ids.drop_last();
        let last = ids.last();
        assert forall|i: int| 0 <= i < front.len() implies all.contains(#[trigger] front[i]) by {
            assert(front[i] == ids[i]);
        }
        lemma_unmentioned(projections, front, all);
        assert(all.contains(ids[ids.len() - 1]));
        lemma_stored_mentions(projections, all, last);
    }
}

proof fn lemma_stored_mentions(
    projections: Map<Seq<char>, ProjectionView>,
    ids: Seq<Seq<char>>,
    id: Seq<char>,
)
    requires
        well_keyed(projections),
    ensures
        (exists|i: int|
            0 <= i < stored(projections, ids).len() && (
            #[trigger] stored(projections, ids)[i]).message_id == id) <==> (ids.contains(id)
            && projections.contains_key(id)),
    decreases ids.len(),
{
    if ids.len() > 0 {
        let front = ids.drop_last();
        let before = stored(projections, front);
        let all = stored(projections, ids);
        lemma_stored_mentions(projections, front, id);
        if exists|i: int| 0 <= i < all.len() && (#[trigger] all[i]).message_id == id {
            let i = choose|i: int| 0 <= i < all.len() && (#[trigger] all[i]).message_id == id;
            if i < before.len() {
                assert(before[i] == all[i]);
            }
        }
        if exists|i: int| 0 <= i < before.len() && (#[trigger] before[i]).message_id == id {
            let i = choose|i: int| 0 <= i < before.len() && (#[trigger] before[i]).message_id == id;
            assert(all[i] == before[i]);
        }
        if ids.contains(id) {
            let i = choose|i: int| 0 <= i < ids.len() && ids[i] == id;
            if i < front.len() {
                assert(front[i] == id);
            }
        }
        if front.contains(id) {
            let i = choose|i: int| 0 <= i < front.len() && front[i] == id;
            assert(ids[i] == id);
        }
        assert(ids[ids.len() - 1] == ids.last());
        if projections.contains_key(ids.last()) {
            assert(all[before.len() as int] == projections[ids.last()]);
        }
    }
}

/// A replay that projected every message reports none as unprojected.
pub proof fn a_complete_replay_reports_nothing(
    projections: Map<Seq<char>, ProjectionView>,
    ids: Seq<Seq<char>>,
)
    requires
        forall|i: int| 0 <= i < ids.len() ==> projections.contains_key(#[trigger] ids[i]),
    ensures
        missing(projections, ids) == Seq::<Seq<char>>::empty(),
    decreases ids.len(),
{
    if ids.len() > 0 {
        let front = ids.drop_last();
        assert forall|i: int| 0 <= i < front.len() implies projections.contains_key(
            #[trigger] front[i],
        ) by {
            assert(front[i] == ids[i]);
        }
        assert(projections.contains_key(ids[ids.len() - 1]));
        a_complete_replay_reports_nothing(projections, front);
    }
}

} // verus!
