//! Laws of verification: what a replay caches, `verify` finds again.

use super::replay::a_memoized_replay_is_frozen;
use super::replay::is_function;
use super::replay::replay_is_deterministic;
use super::replay::the_mock_is_a_function;
use super::versions::an_unchanged_derivation_is_verified;
use crate::cli::commands::verification;
use crate::model::alike::Alike;
use crate::model::derivation::ConversationDerivation;
use crate::model::derivation::ConversationDerivationView;
use crate::model::derivation::DerivedOutputCache;
use crate::model::message::MessageEnvelope;
use crate::model::message::MessageEnvelopeView;
use crate::model::message_log::conversations_of;
use crate::model::message_log::messages_of;
use crate::model::projection::Projection;
use crate::model::projection::ProjectionView;
use crate::model::projector::DeveloperSnapshotBuilder;
use crate::model::projector::Projector;
use crate::model::projector::RoutingHinter;
use crate::model::projector::ScopeProjector;
use crate::model::projector::SkillBuilder;
use crate::model::projector::WarmupBuilder;
use crate::model::routing::RoutingHint;
use crate::model::routing::RoutingHintView;
use crate::model::seqs::views;
use crate::model::skill::DeveloperSnapshot;
use crate::model::skill::DeveloperSnapshotRequestView;
use crate::model::skill::DeveloperSnapshotView;
use crate::model::skill::ExpertCandidateView;
use crate::model::skill::ParticipantView;
use crate::model::skill::SessionDevelopersView;
use crate::model::skill::SkillContributionView;
use crate::model::skill::TopicOwnershipView;
use crate::model::skill::TopicWeightView;
use crate::ordered::all_ok;
use crate::ordered::insert_sorted;
use crate::ordered::listed;
use crate::ordered::stable_sorted;
use crate::provider::caching::CachingProjector;
use crate::provider::developer::named_before;
use crate::provider::developer::owned;
use crate::provider::developer::score_of;
use crate::provider::developer::session_developers;
use crate::provider::developer::snapshot;
use crate::provider::developer::weighs_before;
use crate::provider::developer::SkillDeveloperSnapshotter;
use crate::provider::hint::votes;
use crate::provider::hint::SkillRoutingHinter;
use crate::provider::mock::keyword_projection;
use crate::provider::mock::MockProjector;
use crate::provider::scope::MockScopeProjector;
use crate::provider::skill::all_topics;
use crate::provider::skill::candidate;
use crate::provider::skill::owners_of;
use crate::provider::skill::ownership;
use crate::provider::skill::ranks_before;
use crate::provider::skill::strongest;
use crate::provider::skill::MessageSkillBuilder;
use crate::provider::warmup::MockWarmupBuilder;
use crate::runtime::cache::Cache;
use crate::runtime::step::Step;
use crate::text::lowercase;
use crate::worker::derived::derivation_in;
use crate::worker::derived::derivations_of;
use crate::worker::derived::populated;
use crate::worker::derived::stored_hints;
use crate::worker::jobs::contributions;
use crate::worker::jobs::distinct;
use crate::worker::jobs::stored;
use crate::worker::jobs::stored_ownerships;
use crate::worker::jobs::topics_in;
use crate::worker::jobs::with_hints;
use crate::worker::jobs::with_ownerships;
use crate::worker::replay::developers_of;
use crate::worker::replay::entries_of;
use crate::worker::replay::projects;
use crate::worker::replay::scopes_of;
use crate::worker::replay::with_projections;
use crate::worker::replay::ProjectionStrategy;
use crate::worker::replay::ReplayStoresView;
use crate::worker::sessions::ids_of;
use crate::worker::sessions::sessions_of;
use vstd::prelude::*;

verus! {

/// Whether the scores of a list of candidates are numbers.
pub open spec fn scores_are_numbers(candidates: Seq<ExpertCandidateView>) -> bool {
    forall|i: int| 0 <= i < candidates.len() ==> !(#[trigger] candidates[i]).score.is_nan_spec()
}

/// Whether the scores of a hint are numbers.
pub open spec fn hint_of_numbers(hint: RoutingHintView) -> bool {
    &&& scores_are_numbers(hint.reviewers)
    &&& hint.human_hint matches Some(first) ==> !first.score.is_nan_spec()
}

/// Whether the weights of a snapshot are numbers.
pub open spec fn snapshot_of_numbers(developer: DeveloperSnapshotView) -> bool {
    forall|i: int|
        0 <= i < developer.topics.len() ==> !(#[trigger] developer.topics[i]).weight.is_nan_spec()
}

/// Whether the weights of a session's developers are numbers.
pub open spec fn session_of_numbers(session: SessionDevelopersView) -> bool {
    forall|i: int|
        0 <= i < session.developers.len() ==> snapshot_of_numbers(#[trigger] session.developers[i])
}

/// Whether every confidence, score and weight of a derivation is a number.
pub open spec fn holds_numbers(d: ConversationDerivationView) -> bool {
    &&& forall|i: int|
        0 <= i < d.projections.len() ==> !(#[trigger] d.projections[i]).confidence.is_nan_spec()
    &&& d.scope matches Some(scope) ==> !scope.confidence.is_nan_spec()
    &&& d.developers matches Some(session) ==> session_of_numbers(session)
    &&& forall|i: int| 0 <= i < d.hints.len() ==> hint_of_numbers(#[trigger] d.hints[i])
}

/// A derivation whose confidences, scores and weights are numbers equals itself.
pub proof fn a_derivation_of_numbers_is_alike_itself(d: ConversationDerivationView)
    requires
        holds_numbers(d),
    ensures
        ConversationDerivation::alike(d, d),
{
    assert forall|i: int| 0 <= i < d.projections.len() implies Projection::alike(
        #[trigger] d.projections[i],
        d.projections[i],
    ) by {}
    assert forall|i: int| 0 <= i < d.hints.len() implies RoutingHint::alike(
        #[trigger] d.hints[i],
        d.hints[i],
    ) by {
        assert(hint_of_numbers(d.hints[i]));
    }
    if let Some(session) = d.developers {
        assert forall|i: int| 0 <= i < session.developers.len() implies
            DeveloperSnapshot::alike(
            #[trigger] session.developers[i],
            session.developers[i],
        ) by {
            assert(snapshot_of_numbers(session.developers[i]));
        }
    }
}

/// Each derivation of a run is that of one of the conversations.
proof fn lemma_derivation_at(
    log: Seq<MessageEnvelopeView>,
    stores: ReplayStoresView,
    conversations: Seq<Seq<char>>,
    i: int,
)
    requires
        0 <= i < derivations_of(log, stores, conversations).len(),
    ensures
        ({
            let d = derivations_of(log, stores, conversations)[i];
            &&& conversations.contains(d.conversation)
            &&& derivation_in(log, stores, d.conversation) == Some(d)
        }),
    decreases conversations.len(),
{
    if conversations.len() > 0 {
        let front = conversations.drop_last();
        let before = derivations_of(log, stores, front);
        if i < before.len() {
            lemma_derivation_at(log, stores, front, i);
            let d = before[i];
            let k = choose|k: int| 0 <= k < front.len() && front[k] == d.conversation;
            assert(conversations[k] == d.conversation);
        } else {
            assert(conversations[conversations.len() - 1] == conversations.last());
        }
    }
}

/// What a run published is verified by a run that gives the same stores: every
/// conversation's record says so.
pub proof fn a_published_run_is_verified<C: DerivedOutputCache>(
    before: C,
    after: C,
    log: Seq<MessageEnvelopeView>,
    stores: ReplayStoresView,
    version: Seq<char>,
    i: int,
)
    requires
        populated(before, after, log, stores, version, conversations_of(log)),
        0 <= i < derivations_of(log, stores, conversations_of(log)).len(),
        holds_numbers(derivations_of(log, stores, conversations_of(log))[i]),
    ensures
        verification(
            after.entries(),
            log,
            version,
            derivations_of(log, stores, conversations_of(log))[i],
        ).outcome == "verified"@,
{
    let d = derivations_of(log, stores, conversations_of(log))[i];
    lemma_derivation_at(log, stores, conversations_of(log), i);
    a_derivation_of_numbers_is_alike_itself(d);
    an_unchanged_derivation_is_verified(before, after, log, stores, version, d.conversation);
}

/// A replay, then `verify`: with a projector that is a function of the message, every
/// conversation is verified.
pub proof fn a_deterministic_replay_is_verified<
    P: Projector,
    S: ScopeProjector,
    W: WarmupBuilder,
    K: SkillBuilder,
    H: RoutingHinter,
    D: DeveloperSnapshotBuilder,
    C: DerivedOutputCache,
>(
    before: ProjectionStrategy<P, S, W, K, H, D>,
    between: ProjectionStrategy<P, S, W, K, H, D>,
    after: ProjectionStrategy<P, S, W, K, H, D>,
    log: Seq<MessageEnvelopeView>,
    first: ReplayStoresView,
    second: ReplayStoresView,
    f: spec_fn(MessageEnvelopeView) -> ProjectionView,
    held: C,
    cache: C,
    version: Seq<char>,
    i: int,
)
    requires
        is_function::<P>(f),
        before.replays(log, &between, first),
        populated(held, cache, log, first, version, conversations_of(log)),
        between.replays(log, &after, second),
        0 <= i < derivations_of(log, second, conversations_of(log)).len(),
        holds_numbers(derivations_of(log, second, conversations_of(log))[i]),
    ensures
        verification(
            cache.entries(),
            log,
            version,
            derivations_of(log, second, conversations_of(log))[i],
        ).outcome == "verified"@,
{
    replay_is_deterministic(before, between, first, between, after, second, log, f);
    a_published_run_is_verified(held, cache, log, first, version, i);
}

/// A replay, then `verify`: with a memoizing projector every conversation is
/// verified, whatever the inner projector answers.
pub proof fn a_memoized_replay_is_verified<
    I: Step<In = MessageEnvelope, Out = Projection>,
    M: Cache<Projection>,
    S: ScopeProjector,
    W: WarmupBuilder,
    K: SkillBuilder,
    H: RoutingHinter,
    D: DeveloperSnapshotBuilder,
    C: DerivedOutputCache,
>(
    before: ProjectionStrategy<CachingProjector<I, M>, S, W, K, H, D>,
    between: ProjectionStrategy<CachingProjector<I, M>, S, W, K, H, D>,
    after: ProjectionStrategy<CachingProjector<I, M>, S, W, K, H, D>,
    log: Seq<MessageEnvelopeView>,
    first: ReplayStoresView,
    second: ReplayStoresView,
    held: C,
    cache: C,
    version: Seq<char>,
    i: int,
)
    requires
        before.replays(log, &between, first),
        populated(held, cache, log, first, version, conversations_of(log)),
        between.replays(log, &after, second),
        0 <= i < derivations_of(log, second, conversations_of(log)).len(),
        holds_numbers(derivations_of(log, second, conversations_of(log))[i]),
    ensures
        verification(
            cache.entries(),
            log,
            version,
            derivations_of(log, second, conversations_of(log))[i],
        ).outcome == "verified"@,
{
    a_memoized_replay_is_frozen(before, between, after, log, first, second);
    a_published_run_is_verified(held, cache, log, first, version, i);
}

/// Inserting keeps what holds of every item.
proof fn lemma_insert_keeps<T>(s: Seq<T>, x: T, before: spec_fn(T, T) -> bool, ok: spec_fn(T) -> bool)
    requires
        all_ok(s, ok),
        ok(x),
    ensures
        all_ok(insert_sorted(s, x, before), ok),
    decreases s.len(),
{
    if s.len() > 0 {
        let front = s.drop_last();
        assert(ok(s[s.len() - 1]));
        assert forall|i: int| 0 <= i < front.len() implies ok(#[trigger] front[i]) by {
            assert(ok(s[i]));
        }
        lemma_insert_keeps(front, x, before, ok);
    }
}

/// Sorting keeps what holds of every item, whatever the order.
proof fn lemma_sorting_keeps<T>(s: Seq<T>, before: spec_fn(T, T) -> bool, ok: spec_fn(T) -> bool)
    requires
        all_ok(s, ok),
    ensures
        all_ok(stable_sorted(s, before), ok),
    decreases s.len(),
{
    if s.len() > 0 {
        let front = s.drop_last();
        assert(ok(s[s.len() - 1]));
        assert forall|i: int| 0 <= i < front.len() implies ok(#[trigger] front[i]) by {
            assert(ok(s[i]));
        }
        lemma_sorting_keeps(front, before, ok);
        lemma_insert_keeps(stable_sorted(front, before), s.last(), before, ok);
    }
}

/// The scores of a topic's candidates are numbers.
proof fn lemma_owner_numbers(p: Seq<SkillContributionView>, topic: Seq<char>)
    ensures
        scores_are_numbers(ownership(p, topic).candidates),
{
    let names = listed(owners_of(p, topic));
    let top = strongest(p, names, topic);
    let plain = names.map_values(|a: Seq<char>| candidate(p, a, topic, top));
    let ok = |c: ExpertCandidateView| !c.score.is_nan_spec();
    let before = |a: ExpertCandidateView, b: ExpertCandidateView| ranks_before(a, b);
    lemma_sorting_keeps(plain, before, ok);
    let ranked = ownership(p, topic).candidates;
    assert forall|i: int| 0 <= i < ranked.len() implies !(
    #[trigger] ranked[i]).score.is_nan_spec() by {
        assert(ok(ranked[i]));
    }
}

/// Whether the scores of every stored ownership are numbers.
spec fn skills_of_numbers(skills: Map<Seq<char>, TopicOwnershipView>) -> bool {
    forall|t: Seq<char>| #[trigger]
        skills.contains_key(t) ==> scores_are_numbers(skills[t].candidates)
}

proof fn lemma_skill_numbers(ownerships: Seq<TopicOwnershipView>)
    requires
        forall|i: int|
            0 <= i < ownerships.len() ==> scores_are_numbers((#[trigger] ownerships[i]).candidates),
    ensures
        skills_of_numbers(with_ownerships(Map::empty(), ownerships)),
    decreases ownerships.len(),
{
    if ownerships.len() > 0 {
        let front = ownerships.drop_last();
        assert forall|i: int| 0 <= i < front.len() implies scores_are_numbers(
            (#[trigger] front[i]).candidates,
        ) by {
            assert(scores_are_numbers(ownerships[i].candidates));
        }
        lemma_skill_numbers(front);
        assert(scores_are_numbers(ownerships[ownerships.len() - 1].candidates));
    }
}

proof fn lemma_stored_ownership_numbers(
    skills: Map<Seq<char>, TopicOwnershipView>,
    topics: Seq<Seq<char>>,
)
    requires
        skills_of_numbers(skills),
    ensures
        forall|i: int|
            0 <= i < stored_ownerships(skills, topics).len() ==> scores_are_numbers(
                (#[trigger] stored_ownerships(skills, topics)[i]).candidates,
            ),
    decreases topics.len(),
{
    if topics.len() > 0 {
        lemma_stored_ownership_numbers(skills, topics.drop_last());
        let before = stored_ownerships(skills, topics.drop_last());
        let all = stored_ownerships(skills, topics);
        assert forall|i: int| 0 <= i < all.len() implies scores_are_numbers(
            (#[trigger] all[i]).candidates,
        ) by {
            if i < before.len() {
                assert(all[i] == before[i]);
            }
        }
    }
}

proof fn lemma_score_number(candidates: Seq<ExpertCandidateView>, author: Seq<char>)
    requires
        scores_are_numbers(candidates),
    ensures
        score_of(candidates, author) matches Some(score) ==> !score.is_nan_spec(),
    decreases candidates.len(),
{
    if candidates.len() > 0 {
        let rest = candidates.drop_first();
        assert forall|i: int| 0 <= i < rest.len() implies !(
        #[trigger] rest[i]).score.is_nan_spec() by {
            assert(rest[i] == candidates[i + 1]);
        }
        lemma_score_number(rest, author);
        assert(!candidates[0].score.is_nan_spec());
    }
}

proof fn lemma_owned_numbers(author: Seq<char>, ownerships: Seq<TopicOwnershipView>)
    requires
        forall|i: int|
            0 <= i < ownerships.len() ==> scores_are_numbers((#[trigger] ownerships[i]).candidates),
    ensures
        forall|i: int|
            0 <= i < owned(author, ownerships).len() ==> !(#[trigger] owned(
                author,
                ownerships,
            )[i]).weight.is_nan_spec(),
    decreases ownerships.len(),
{
    if ownerships.len() > 0 {
        let front = ownerships.drop_last();
        assert forall|i: int| 0 <= i < front.len() implies scores_are_numbers(
            (#[trigger] front[i]).candidates,
        ) by {
            assert(scores_are_numbers(ownerships[i].candidates));
        }
        lemma_owned_numbers(author, front);
        assert(scores_are_numbers(ownerships[ownerships.len() - 1].candidates));
        lemma_score_number(ownerships.last().candidates, author);
        let before = owned(author, front);
        let all = owned(author, ownerships);
        assert forall|i: int| 0 <= i < all.len() implies !(
        #[trigger] all[i]).weight.is_nan_spec() by {
            if i < before.len() {
                assert(all[i] == before[i]);
            }
        }
    }
}

proof fn lemma_session_numbers(
    conversation: Seq<char>,
    participants: Seq<ParticipantView>,
    ownerships: Seq<TopicOwnershipView>,
)
    requires
        forall|i: int|
            0 <= i < ownerships.len() ==> scores_are_numbers((#[trigger] ownerships[i]).candidates),
    ensures
        session_of_numbers(session_developers(conversation, participants, ownerships)),
{
    let plain = participants.map_values(|p: ParticipantView| snapshot(p, ownerships));
    let ok = |d: DeveloperSnapshotView| snapshot_of_numbers(d);
    assert forall|i: int| 0 <= i < plain.len() implies ok(#[trigger] plain[i]) by {
        let topics = owned(participants[i].author, ownerships);
        let number = |t: TopicWeightView| !t.weight.is_nan_spec();
        lemma_owned_numbers(participants[i].author, ownerships);
        assert(all_ok(topics, number));
        lemma_sorting_keeps(
            topics,
            |a: TopicWeightView, b: TopicWeightView| weighs_before(a, b),
            number,
        );
        let sorted = plain[i].topics;
        assert forall|j: int| 0 <= j < sorted.len() implies !(
        #[trigger] sorted[j]).weight.is_nan_spec() by {
            assert(number(sorted[j]));
        }
    }
    lemma_sorting_keeps(
        plain,
        |a: DeveloperSnapshotView, b: DeveloperSnapshotView| named_before(a, b),
        ok,
    );
    let developers = session_developers(conversation, participants, ownerships).developers;
    assert forall|i: int| 0 <= i < developers.len() implies snapshot_of_numbers(
        #[trigger] developers[i],
    ) by {
        assert(ok(developers[i]));
    }
}

proof fn lemma_session_records_of_numbers(
    scoper: &MockScopeProjector,
    snapshotter: &SkillDeveloperSnapshotter,
    projections: Map<Seq<char>, ProjectionView>,
    skills: Map<Seq<char>, TopicOwnershipView>,
    sessions: Seq<DeveloperSnapshotRequestView>,
    c: Seq<char>,
)
    requires
        skills_of_numbers(skills),
    ensures
        scopes_of(scoper, projections, sessions).contains_key(c) ==> !scopes_of(
            scoper,
            projections,
            sessions,
        )[c].confidence.is_nan_spec(),
        developers_of(snapshotter, projections, skills, sessions).contains_key(c)
            ==> session_of_numbers(developers_of(snapshotter, projections, skills, sessions)[c]),
    decreases sessions.len(),
{
    if sessions.len() > 0 {
        let last = sessions.last();
        lemma_session_records_of_numbers(
            scoper,
            snapshotter,
            projections,
            skills,
            sessions.drop_last(),
            c,
        );
        let topics = distinct(topics_in(stored(projections, last.messages)));
        lemma_stored_ownership_numbers(skills, topics);
        lemma_session_numbers(
            last.conversation,
            last.participants,
            stored_ownerships(skills, topics),
        );
    }
}

proof fn lemma_hint_numbers(
    hinter: &SkillRoutingHinter,
    projections: Map<Seq<char>, ProjectionView>,
    skills: Map<Seq<char>, TopicOwnershipView>,
    ids: Seq<Seq<char>>,
    id: Seq<char>,
)
    ensures
        with_hints(hinter, projections, skills, Map::empty(), ids).contains_key(id)
            ==> hint_of_numbers(with_hints(hinter, projections, skills, Map::empty(), ids)[id]),
    decreases ids.len(),
{
    if ids.len() > 0 {
        lemma_hint_numbers(hinter, projections, skills, ids.drop_last(), id);
        if projections.contains_key(ids.last()) {
            let projection = projections[ids.last()];
            let ownerships = stored_ownerships(skills, projection.topics);
            lemma_owner_numbers(
                votes(projection.topics, ownerships),
                Seq::empty(),
            );
        }
    }
}

proof fn lemma_stored_hint_numbers(
    hints: Map<Seq<char>, RoutingHintView>,
    ids: Seq<Seq<char>>,
)
    requires
        forall|id: Seq<char>| #[trigger] hints.contains_key(id) ==> hint_of_numbers(hints[id]),
    ensures
        forall|i: int|
            0 <= i < stored_hints(hints, ids).len() ==> hint_of_numbers(
                #[trigger] stored_hints(hints, ids)[i],
            ),
    decreases ids.len(),
{
    if ids.len() > 0 {
        lemma_stored_hint_numbers(hints, ids.drop_last());
        let before = stored_hints(hints, ids.drop_last());
        let all = stored_hints(hints, ids);
        assert forall|i: int| 0 <= i < all.len() implies hint_of_numbers(#[trigger] all[i]) by {
            if i < before.len() {
                assert(all[i] == before[i]);
            }
        }
    }
}

proof fn lemma_stored_projection_numbers(
    projections: Map<Seq<char>, ProjectionView>,
    ids: Seq<Seq<char>>,
)
    requires
        forall|id: Seq<char>| #[trigger]
            projections.contains_key(id) ==> !projections[id].confidence.is_nan_spec(),
    ensures
        forall|i: int|
            0 <= i < stored(projections, ids).len() ==> !(#[trigger] stored(
                projections,
                ids,
            )[i]).confidence.is_nan_spec(),
    decreases ids.len(),
{
    if ids.len() > 0 {
        lemma_stored_projection_numbers(projections, ids.drop_last());
    }
}

/// Whether a projector only ever gives confidences that are numbers.
pub open spec fn gives_numbers<P: Projector>() -> bool {
    forall|s: P, m: MessageEnvelope, t: P::Memory, o: Projection| #[trigger]
        s.runs(&m, t, &o) ==> !o@.confidence.is_nan_spec()
}

/// The mock projector only gives confidences that are numbers.
pub proof fn the_mock_gives_numbers()
    ensures
        gives_numbers::<MockProjector>(),
{
}

proof fn lemma_projected_numbers<P: Projector>(
    before: P,
    messages: Seq<MessageEnvelope>,
    after: P,
    outs: Seq<Projection>,
    id: Seq<char>,
)
    requires
        gives_numbers::<P>(),
        projects(before, messages, after, outs),
    ensures
        with_projections(Map::empty(), views(outs)).contains_key(id) ==> !with_projections(
            Map::empty(),
            views(outs),
        )[id].confidence.is_nan_spec(),
    decreases messages.len(),
{
    if messages.len() > 0 {
        let between = choose|between: P|
            projects(before, messages.drop_last(), between, outs.drop_last())
                && between.kind_spec() == before.kind_spec() && between.version_spec()
                == before.version_spec() && #[trigger] between.runs(
                &messages.last(),
                after.memory(),
                &outs.last(),
            );
        lemma_projected_numbers(before, messages.drop_last(), between, outs.drop_last(), id);
        assert(views(outs).drop_last() =~= views(outs.drop_last()));
        assert(views(outs).last() == outs.last()@);
    }
}

/// The built-in ports derive numbers from a projector that gives numbers.
pub proof fn built_in_ports_derive_numbers<P: Projector>(
    before: ProjectionStrategy<
        P,
        MockScopeProjector,
        MockWarmupBuilder,
        MessageSkillBuilder,
        SkillRoutingHinter,
        SkillDeveloperSnapshotter,
    >,
    after: ProjectionStrategy<
        P,
        MockScopeProjector,
        MockWarmupBuilder,
        MessageSkillBuilder,
        SkillRoutingHinter,
        SkillDeveloperSnapshotter,
    >,
    log: Seq<MessageEnvelopeView>,
    stores: ReplayStoresView,
    conversation: Seq<char>,
)
    requires
        gives_numbers::<P>(),
        before.replays(log, &after, stores),
    ensures
        derivation_in(log, stores, conversation) matches Some(d) ==> holds_numbers(d),
{
    let (m, o) = choose|messages: Seq<MessageEnvelope>, outs: Seq<Projection>|
        views(messages) == log && #[trigger] projects(
            before.projector,
            messages,
            after.projector,
            outs,
        ) && stores == before.derived(log, with_projections(Map::empty(), views(outs)));
    assert forall|id: Seq<char>| #[trigger]
        stores.projections.contains_key(id) implies !stores.projections[id].confidence.is_nan_spec() by {
        lemma_projected_numbers(before.projector, m, after.projector, o, id);
    }
    let p = contributions(
        stores.projections,
        entries_of(log),
    );
    let index = before.skill_builder.index_spec(p);
    assert forall|i: int| 0 <= i < index.ownerships.len() implies scores_are_numbers(
        (#[trigger] index.ownerships[i]).candidates,
    ) by {
        lemma_owner_numbers(p, listed(all_topics(p))[i]);
    }
    lemma_skill_numbers(index.ownerships);
    let ids = ids_of(log);
    assert forall|id: Seq<char>| #[trigger] stores.hints.contains_key(id) implies hint_of_numbers(
        stores.hints[id],
    ) by {
        lemma_hint_numbers(&before.hinter, stores.projections, stores.skills, ids, id);
    }
    lemma_session_records_of_numbers(
        &before.scoper,
        &before.snapshotter,
        stores.projections,
        stores.skills,
        sessions_of(log),
        conversation,
    );
    let own = ids_of(
        messages_of(log, conversation),
    );
    lemma_stored_projection_numbers(stores.projections, own);
    lemma_stored_hint_numbers(stores.hints, own);
}

/// A replay, then `verify`: with the mock projector and the built-in ports every
/// conversation is verified.
pub proof fn a_mock_replay_is_verified<C: DerivedOutputCache>(
    before: ProjectionStrategy<
        MockProjector,
        MockScopeProjector,
        MockWarmupBuilder,
        MessageSkillBuilder,
        SkillRoutingHinter,
        SkillDeveloperSnapshotter,
    >,
    between: ProjectionStrategy<
        MockProjector,
        MockScopeProjector,
        MockWarmupBuilder,
        MessageSkillBuilder,
        SkillRoutingHinter,
        SkillDeveloperSnapshotter,
    >,
    after: ProjectionStrategy<
        MockProjector,
        MockScopeProjector,
        MockWarmupBuilder,
        MessageSkillBuilder,
        SkillRoutingHinter,
        SkillDeveloperSnapshotter,
    >,
    log: Seq<MessageEnvelopeView>,
    first: ReplayStoresView,
    second: ReplayStoresView,
    held: C,
    cache: C,
    version: Seq<char>,
    i: int,
)
    requires
        before.replays(log, &between, first),
        populated(held, cache, log, first, version, conversations_of(log)),
        between.replays(log, &after, second),
        0 <= i < derivations_of(log, second, conversations_of(log)).len(),
    ensures
        verification(
            cache.entries(),
            log,
            version,
            derivations_of(log, second, conversations_of(log))[i],
        ).outcome == "verified"@,
{
    let d = derivations_of(log, second, conversations_of(log))[i];
    lemma_derivation_at(log, second, conversations_of(log), i);
    the_mock_gives_numbers();
    built_in_ports_derive_numbers(between, after, log, second, d.conversation);
    the_mock_is_a_function();
    a_deterministic_replay_is_verified(
        before,
        between,
        after,
        log,
        first,
        second,
        |m: MessageEnvelopeView| keyword_projection(m.id, lowercase(m.body)),
        held,
        cache,
        version,
        i,
    );
}

} // verus!
