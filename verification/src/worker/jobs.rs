//! The jobs of the projection pipeline.
//!
//! Each borrows its ports and stores, reads what earlier jobs stored and upserts
//! what it derives. A message without a stored projection is skipped.

use crate::model::message::MessageEnvelope;
use crate::model::message::MessageId;
use crate::model::projection::Projection;
use crate::model::projection::ProjectionView;
use crate::model::projection::Topic;
use crate::model::projector::DeveloperSnapshotBuilder;
use crate::model::projector::Projector;
use crate::model::projector::RoutingHinter;
use crate::model::projector::ScopeProjector;
use crate::model::projector::SkillBuilder;
use crate::model::projector::WarmupBuilder;
use crate::model::routing::RoutingHintRequest;
use crate::model::routing::RoutingHintView;
use crate::model::scope::ScopeRequest;
use crate::model::seqs::lookup;
use crate::model::seqs::views;
use crate::model::skill::DeveloperSnapshotRequest;
use crate::model::skill::SkillContribution;
use crate::model::skill::SkillContributionView;
use crate::model::skill::SkillEntry;
use crate::model::skill::SkillEntryView;
use crate::model::skill::SkillRequest;
use crate::model::skill::TopicOwnership;
use crate::model::skill::TopicOwnershipView;
use crate::model::store::DeveloperSnapshotStore;
use crate::model::store::ProjectionStore;
use crate::model::store::RoutingHintStore;
use crate::model::store::ScopeStore;
use crate::model::store::SkillStore;
use crate::model::store::WarmupStore;
use crate::model::warmup::WarmupRequest;
use crate::provider::hint::has_topic;
use vstd::prelude::*;

verus! {

/// The stored projections of the given messages, in order; a message without one
/// is skipped.
pub open spec fn stored(
    projections: Map<Seq<char>, ProjectionView>,
    ids: Seq<Seq<char>>,
) -> Seq<ProjectionView>
    decreases ids.len(),
{
    if ids.len() == 0 {
        Seq::empty()
    } else {
        let before = stored(projections, ids.drop_last());
        match lookup(projections, ids.last()) {
            Some(projection) => before.push(projection),
            None => before,
        }
    }
}

/// The stored ownerships of the given topics, in order; a topic without one is
/// skipped.
pub open spec fn stored_ownerships(
    skills: Map<Seq<char>, TopicOwnershipView>,
    topics: Seq<Seq<char>>,
) -> Seq<TopicOwnershipView>
    decreases topics.len(),
{
    if topics.len() == 0 {
        Seq::empty()
    } else {
        let before = stored_ownerships(skills, topics.drop_last());
        match lookup(skills, topics.last()) {
            Some(ownership) => before.push(ownership),
            None => before,
        }
    }
}

/// What the given entries contribute to the skill index: each author joined to
/// the stored projection of their message.
pub open spec fn contributions(
    projections: Map<Seq<char>, ProjectionView>,
    entries: Seq<SkillEntryView>,
) -> Seq<SkillContributionView>
    decreases entries.len(),
{
    if entries.len() == 0 {
        Seq::empty()
    } else {
        let before = contributions(projections, entries.drop_last());
        let last = entries.last();
        match lookup(projections, last.message) {
            Some(projection) => before.push(
                SkillContributionView {
                    author: last.author,
                    display_name: last.display_name,
                    topics: projection.topics,
                    confidence: projection.confidence,
                },
            ),
            None => before,
        }
    }
}

/// The ownerships upserted one after the other.
pub open spec fn with_ownerships(
    skills: Map<Seq<char>, TopicOwnershipView>,
    ownerships: Seq<TopicOwnershipView>,
) -> Map<Seq<char>, TopicOwnershipView>
    decreases ownerships.len(),
{
    if ownerships.len() == 0 {
        skills
    } else {
        with_ownerships(skills, ownerships.drop_last()).insert(
            ownerships.last().topic,
            ownerships.last(),
        )
    }
}

/// The hints of the given messages upserted one after the other.
pub open spec fn with_hints<H: RoutingHinter>(
    hinter: &H,
    projections: Map<Seq<char>, ProjectionView>,
    skills: Map<Seq<char>, TopicOwnershipView>,
    hints: Map<Seq<char>, RoutingHintView>,
    ids: Seq<Seq<char>>,
) -> Map<Seq<char>, RoutingHintView>
    decreases ids.len(),
{
    if ids.len() == 0 {
        hints
    } else {
        let before = with_hints(hinter, projections, skills, hints, ids.drop_last());
        match lookup(projections, ids.last()) {
            Some(projection) => {
                let hint = hinter.hint_spec(
                    projection,
                    stored_ownerships(skills, projection.topics),
                );
                before.insert(hint.message_id, hint)
            },
            None => before,
        }
    }
}

/// The texts without repeats, in first-seen order.
pub open spec fn distinct(texts: Seq<Seq<char>>) -> Seq<Seq<char>>
    decreases texts.len(),
{
    if texts.len() == 0 {
        Seq::empty()
    } else {
        let before = distinct(texts.drop_last());
        if before.contains(texts.last()) {
            before
        } else {
            before.push(texts.last())
        }
    }
}

/// The topics of the projections, one after the other.
pub open spec fn topics_in(projections: Seq<ProjectionView>) -> Seq<Seq<char>>
    decreases projections.len(),
{
    if projections.len() == 0 {
        Seq::empty()
    } else {
        topics_in(projections.drop_last()) + projections.last().topics
    }
}

/// Fetches the stored projections of the given messages.
pub fn fetch_stored<P: ProjectionStore>(projections: &P, ids: &Vec<MessageId>) -> (r: Vec<Projection>)
    ensures
        views(r@) == stored(projections.records(), views(ids@)),
{
    let ghost all = views(ids@);
    let mut out: Vec<Projection> = Vec::new();
    let mut i: usize = 0;
    assert(views(out@) =~= stored(projections.records(), all.take(0)));
    while i < ids.len()
        invariant
            i <= ids@.len(),
            all == views(ids@),
            views(out@) == stored(projections.records(), all.take(i as int)),
        decreases ids@.len() - i,
    {
        proof {
            assert(all.take(i + 1).drop_last() =~= all.take(i as int));
            assert(all.take(i + 1).last() == ids@[i as int]@);
        }
        if let Some(projection) = projections.get(&ids[i]) {
            let ghost before = views(out@);
            let ghost fresh = projection@;
            out.push(projection);
            assert(views(out@) =~= before.push(fresh));
        }
        i = i + 1;
    }
    assert(all.take(i as int) =~= all);
    out
}

/// Fetches the stored ownerships of the given topics.
fn fetch_ownerships<K: SkillStore>(skills: &K, topics: &Vec<Topic>) -> (r: Vec<TopicOwnership>)
    ensures
        views(r@) == stored_ownerships(skills.records(), views(topics@)),
{
    let ghost all = views(topics@);
    let mut out: Vec<TopicOwnership> = Vec::new();
    let mut i: usize = 0;
    assert(views(out@) =~= stored_ownerships(skills.records(), all.take(0)));
    while i < topics.len()
        invariant
            i <= topics@.len(),
            all == views(topics@),
            views(out@) == stored_ownerships(skills.records(), all.take(i as int)),
        decreases topics@.len() - i,
    {
        proof {
            assert(all.take(i + 1).drop_last() =~= all.take(i as int));
            assert(all.take(i + 1).last() == topics@[i as int]@);
        }
        if let Some(ownership) = skills.get(&topics[i]) {
            let ghost before = views(out@);
            let ghost fresh = ownership@;
            out.push(ownership);
            assert(views(out@) =~= before.push(fresh));
        }
        i = i + 1;
    }
    assert(all.take(i as int) =~= all);
    out
}

/// Projects a message and stores the result.
pub struct ProcessMessageJob<'a, P, T> {
    /// The projector.
    pub projector: &'a mut P,
    /// Where projections go.
    pub store: &'a mut T,
}

impl<'a, P: Projector, T: ProjectionStore> ProcessMessageJob<'a, P, T> {
    /// Builds the job from a projector and a projection store.
    pub fn new(projector: &'a mut P, store: &'a mut T) -> (r: Self)
        ensures
            *r.projector == *old(projector),
            *final(r.projector) == *final(projector),
            *r.store == *old(store),
            *final(r.store) == *final(store),
    {
        ProcessMessageJob { projector, store }
    }

    /// Projects the message and upserts the projection by its message id.
    pub fn run(&mut self, message: &MessageEnvelope)
        ensures
            exists|out: Projection| #[trigger]
                old(self).projector.runs(message, final(self).projector.memory(), &out)
                    && final(self).store.records() == old(self).store.records().insert(
                    out@.message_id,
                    out@,
                ),
            final(self).projector.kind_spec() == old(self).projector.kind_spec(),
            final(self).projector.version_spec() == old(self).projector.version_spec(),
            *final(final(self).projector) == *final(old(self).projector),
            *final(final(self).store) == *final(old(self).store),
    {
        let projection = self.projector.project(message);
        let ghost out = projection;
        self.store.upsert(projection);
        assert(old(self).projector.runs(message, self.projector.memory(), &out));
    }
}

/// Builds a session's scope from its stored projections and stores it by
/// conversation id.
pub struct BuildScopeJob<'a, P, S, T> {
    /// Where projections are read.
    pub projections: &'a P,
    /// The scope projector.
    pub scoper: &'a S,
    /// Where scopes go.
    pub scopes: &'a mut T,
}

impl<'a, P: ProjectionStore, S: ScopeProjector, T: ScopeStore> BuildScopeJob<'a, P, S, T> {
    /// Builds the job from a projection store, a scope projector and a scope
    /// store.
    pub fn new(projections: &'a P, scoper: &'a S, scopes: &'a mut T) -> (r: Self)
        ensures
            r.projections == projections,
            r.scoper == scoper,
            *r.scopes == *old(scopes),
            *final(r.scopes) == *final(scopes),
    {
        BuildScopeJob { projections, scoper, scopes }
    }

    /// Derives the scope of the requested messages and upserts it.
    pub fn run(&mut self, request: &ScopeRequest)
        ensures
            ({
                let scope = old(self).scoper.scope_spec(
                    request@.conversation,
                    stored(old(self).projections.records(), request@.messages),
                );
                final(self).scopes.records() == old(self).scopes.records().insert(
                    scope.conversation,
                    scope,
                )
            }),
            final(self).projections == old(self).projections,
            final(self).scoper == old(self).scoper,
            *final(final(self).scopes) == *final(old(self).scopes),
    {
        let projections = fetch_stored(self.projections, &request.messages);
        let scope = self.scoper.scope(&request.conversation, projections.as_slice());
        self.scopes.upsert(scope);
    }
}

/// Builds a session's warm-up from its stored projections and scope, and stores
/// it by conversation id. An absent scope yields an empty focus.
pub struct BuildWarmupJob<'a, P, S, W, T> {
    /// Where projections are read.
    pub projections: &'a P,
    /// Where scopes are read.
    pub scopes: &'a S,
    /// The warm-up builder.
    pub builder: &'a W,
    /// Where warm-ups go.
    pub warmups: &'a mut T,
}

impl<
    'a,
    P: ProjectionStore,
    S: ScopeStore,
    W: WarmupBuilder,
    T: WarmupStore,
> BuildWarmupJob<'a, P, S, W, T> {
    /// Builds the job from the projection store, the scope store, a warm-up
    /// builder and a warm-up store.
    pub fn new(projections: &'a P, scopes: &'a S, builder: &'a W, warmups: &'a mut T) -> (r: Self)
        ensures
            r.projections == projections,
            r.scopes == scopes,
            r.builder == builder,
            *r.warmups == *old(warmups),
            *final(r.warmups) == *final(warmups),
    {
        BuildWarmupJob { projections, scopes, builder, warmups }
    }

    /// Derives the warm-up of the requested messages and upserts it.
    pub fn run(&mut self, request: &WarmupRequest)
        ensures
            ({
                let document = old(self).builder.warmup_spec(
                    request@.conversation,
                    lookup(old(self).scopes.records(), request@.conversation),
                    stored(old(self).projections.records(), request@.messages),
                );
                final(self).warmups.records() == old(self).warmups.records().insert(
                    document.conversation,
                    document,
                )
            }),
            final(self).projections == old(self).projections,
            final(self).scopes == old(self).scopes,
            final(self).builder == old(self).builder,
            *final(final(self).warmups) == *final(old(self).warmups),
    {
        let projections = fetch_stored(self.projections, &request.messages);
        let scope = self.scopes.get(&request.conversation);
        let document = self.builder.build(
            &request.conversation,
            scope.as_ref(),
            projections.as_slice(),
        );
        self.warmups.upsert(document);
    }
}

/// Builds the skill index from authored messages and stores it per topic.
pub struct BuildSkillJob<'a, P, B, T> {
    /// Where projections are read.
    pub projections: &'a P,
    /// The skill builder.
    pub builder: &'a B,
    /// Where ownerships go.
    pub skills: &'a mut T,
}

/// Joins each author to the stored projection of their message.
fn join_entries<P: ProjectionStore>(projections: &P, entries: &Vec<SkillEntry>) -> (r: Vec<
    SkillContribution,
>)
    ensures
        views(r@) == contributions(projections.records(), views(entries@)),
{
    let ghost all = views(entries@);
    let mut out: Vec<SkillContribution> = Vec::new();
    let mut i: usize = 0;
    assert(views(out@) =~= contributions(projections.records(), all.take(0)));
    while i < entries.len()
        invariant
            i <= entries@.len(),
            all == views(entries@),
            views(out@) == contributions(projections.records(), all.take(i as int)),
        decreases entries@.len() - i,
    {
        let entry = &entries[i];
        proof {
            assert(all.take(i + 1).drop_last() =~= all.take(i as int));
            assert(all.take(i + 1).last() == entry@);
        }
        if let Some(projection) = projections.get(&entry.message) {
            let ghost before = views(out@);
            let fresh = SkillContribution {
                author: entry.author.clone(),
                display_name: entry.display_name.clone(),
                topics: projection.topics,
                confidence: projection.confidence,
            };
            let ghost added = fresh@;
            out.push(fresh);
            assert(views(out@) =~= before.push(added));
        }
        i = i + 1;
    }
    assert(all.take(i as int) =~= all);
    out
}

impl<'a, P: ProjectionStore, B: SkillBuilder, T: SkillStore> BuildSkillJob<'a, P, B, T> {
    /// Builds the job from the projection store, a skill builder and a skill
    /// store.
    pub fn new(projections: &'a P, builder: &'a B, skills: &'a mut T) -> (r: Self)
        ensures
            r.projections == projections,
            r.builder == builder,
            *r.skills == *old(skills),
            *final(r.skills) == *final(skills),
    {
        BuildSkillJob { projections, builder, skills }
    }

    /// Builds the index of the requested entries and upserts each ownership.
    pub fn run(&mut self, request: &SkillRequest)
        ensures
            final(self).skills.records() == with_ownerships(
                old(self).skills.records(),
                old(self).builder.index_spec(
                    contributions(old(self).projections.records(), request@.entries),
                ).ownerships,
            ),
            final(self).projections == old(self).projections,
            final(self).builder == old(self).builder,
            *final(final(self).skills) == *final(old(self).skills),
    {
        let joined = join_entries(self.projections, &request.entries);
        let index = self.builder.build(joined.as_slice());
        let ghost all = views(index.ownerships@);
        let ghost start = self.skills.records();
        let mut i: usize = 0;
        assert(start == with_ownerships(start, all.take(0)));
        while i < index.ownerships.len()
            invariant
                i <= index.ownerships@.len(),
                all == views(index.ownerships@),
                self.skills.records() == with_ownerships(start, all.take(i as int)),
                self.projections == old(self).projections,
                self.builder == old(self).builder,
                *final(self.skills) == *final(old(self).skills),
            decreases index.ownerships@.len() - i,
        {
            proof {
                assert(all.take(i + 1).drop_last() =~= all.take(i as int));
                assert(all.take(i + 1).last() == index.ownerships@[i as int]@);
            }
            self.skills.upsert(index.ownerships[i].clone());
            i = i + 1;
        }
        assert(all.take(i as int) =~= all);
    }
}

/// Builds a routing hint per message and stores it by message id. It dispatches
/// nothing.
pub struct BuildRoutingHintJob<'a, P, K, H, T> {
    /// Where projections are read.
    pub projections: &'a P,
    /// Where ownerships are read.
    pub skills: &'a K,
    /// The hinter.
    pub hinter: &'a H,
    /// Where hints go.
    pub hints: &'a mut T,
}

impl<
    'a,
    P: ProjectionStore,
    K: SkillStore,
    H: RoutingHinter,
    T: RoutingHintStore,
> BuildRoutingHintJob<'a, P, K, H, T> {
    /// Builds the job from the projection store, the skill store, a hinter and a
    /// hint store.
    pub fn new(projections: &'a P, skills: &'a K, hinter: &'a H, hints: &'a mut T) -> (r: Self)
        ensures
            r.projections == projections,
            r.skills == skills,
            r.hinter == hinter,
            *r.hints == *old(hints),
            *final(r.hints) == *final(hints),
    {
        BuildRoutingHintJob { projections, skills, hinter, hints }
    }

    /// Derives the hint of each requested message and upserts it.
    pub fn run(&mut self, request: &RoutingHintRequest)
        ensures
            final(self).hints.records() == with_hints(
                old(self).hinter,
                old(self).projections.records(),
                old(self).skills.records(),
                old(self).hints.records(),
                request@.messages,
            ),
            final(self).projections == old(self).projections,
            final(self).skills == old(self).skills,
            final(self).hinter == old(self).hinter,
            *final(final(self).hints) == *final(old(self).hints),
    {
        let ghost all = request@.messages;
        let ghost start = self.hints.records();
        let ghost p = self.projections.records();
        let ghost k = self.skills.records();
        let mut i: usize = 0;
        assert(start == with_hints(self.hinter, p, k, start, all.take(0)));
        while i < request.messages.len()
            invariant
                i <= request.messages@.len(),
                all == views(request.messages@),
                p == self.projections.records(),
                k == self.skills.records(),
                self.hints.records() == with_hints(self.hinter, p, k, start, all.take(i as int)),
                self.projections == old(self).projections,
                self.skills == old(self).skills,
                self.hinter == old(self).hinter,
                *final(self.hints) == *final(old(self).hints),
            decreases request.messages@.len() - i,
        {
            proof {
                assert(all.take(i + 1).drop_last() =~= all.take(i as int));
                assert(all.take(i + 1).last() == request.messages@[i as int]@);
            }
            if let Some(projection) = self.projections.get(&request.messages[i]) {
                let ownerships = fetch_ownerships(self.skills, &projection.topics);
                let hint = self.hinter.hint(&projection, ownerships.as_slice());
                self.hints.upsert(hint);
            }
            i = i + 1;
        }
        assert(all.take(i as int) =~= all);
    }
}

/// Builds a session's developer snapshot and stores it by conversation id.
pub struct BuildDeveloperSnapshotJob<'a, P, K, D, T> {
    /// Where projections are read.
    pub projections: &'a P,
    /// Where ownerships are read.
    pub skills: &'a K,
    /// The snapshotter.
    pub snapshotter: &'a D,
    /// Where snapshots go.
    pub developers: &'a mut T,
}

/// Lists the distinct topics of the projections.
fn distinct_topics(projections: &Vec<Projection>) -> (r: Vec<Topic>)
    ensures
        views(r@) == distinct(topics_in(views(projections@))),
{
    let ghost all = views(projections@);
    let mut out: Vec<Topic> = Vec::new();
    let mut i: usize = 0;
    assert(views(out@) =~= distinct(topics_in(all.take(0))));
    while i < projections.len()
        invariant
            i <= projections@.len(),
            all == views(projections@),
            views(out@) == distinct(topics_in(all.take(i as int))),
        decreases projections@.len() - i,
    {
        let projection = &projections[i];
        let ghost base = topics_in(all.take(i as int));
        let ghost more = projection@.topics;
        proof {
            assert(all.take(i + 1).drop_last() =~= all.take(i as int));
            assert(all.take(i + 1).last() == projection@);
            assert(base + more.take(0) =~= base);
        }
        let mut j: usize = 0;
        while j < projection.topics.len()
            invariant
                j <= projection.topics@.len(),
                more == views(projection.topics@),
                views(out@) == distinct(base + more.take(j as int)),
            decreases projection.topics@.len() - j,
        {
            let topic = &projection.topics[j];
            proof {
                assert((base + more.take(j + 1)).drop_last() =~= base + more.take(j as int));
                assert((base + more.take(j + 1)).last() == topic@);
            }
            if !has_topic(&out, topic) {
                let ghost before = views(out@);
                out.push(topic.clone());
                assert(views(out@) =~= before.push(topic@));
            }
            j = j + 1;
        }
        assert(more.take(j as int) =~= more);
        i = i + 1;
    }
    assert(all.take(i as int) =~= all);
    out
}

impl<
    'a,
    P: ProjectionStore,
    K: SkillStore,
    D: DeveloperSnapshotBuilder,
    T: DeveloperSnapshotStore,
> BuildDeveloperSnapshotJob<'a, P, K, D, T> {
    /// Builds the job from the projection store, the skill store, a snapshotter
    /// and a developer snapshot store.
    pub fn new(projections: &'a P, skills: &'a K, snapshotter: &'a D, developers: &'a mut T) -> (r:
        Self)
        ensures
            r.projections == projections,
            r.skills == skills,
            r.snapshotter == snapshotter,
            *r.developers == *old(developers),
            *final(r.developers) == *final(developers),
    {
        BuildDeveloperSnapshotJob { projections, skills, snapshotter, developers }
    }

    /// Derives the snapshot of the requested session and upserts it. The
    /// ownership of each of the session's topics is fetched once.
    pub fn run(&mut self, request: &DeveloperSnapshotRequest)
        ensures
            ({
                let topics = distinct(
                    topics_in(stored(old(self).projections.records(), request@.messages)),
                );
                let developers = old(self).snapshotter.snapshot_spec(
                    request@.conversation,
                    request@.participants,
                    stored_ownerships(old(self).skills.records(), topics),
                );
                final(self).developers.records() == old(self).developers.records().insert(
                    developers.conversation,
                    developers,
                )
            }),
            final(self).projections == old(self).projections,
            final(self).skills == old(self).skills,
            final(self).snapshotter == old(self).snapshotter,
            *final(final(self).developers) == *final(old(self).developers),
    {
        let projections = fetch_stored(self.projections, &request.messages);
        let topics = distinct_topics(&projections);
        let ownerships = fetch_ownerships(self.skills, &topics);
        let developers = self.snapshotter.build(
            &request.conversation,
            request.participants.as_slice(),
            ownerships.as_slice(),
        );
        self.developers.upsert(developers);
    }
}

} // verus!
