//! Replay: the whole pipeline derived anew from the message log.
//!
//! The ports are functions of their arguments and the stores upsert by key, so
//! what a replay gives is a function of the log and of what the projector gave.

use super::jobs::contributions;
use super::jobs::distinct;
use super::jobs::stored;
use super::jobs::stored_ownerships;
use super::jobs::topics_in;
use super::jobs::with_hints;
use super::jobs::with_ownerships;
use super::jobs::BuildDeveloperSnapshotJob;
use super::jobs::BuildRoutingHintJob;
use super::jobs::BuildScopeJob;
use super::jobs::BuildSkillJob;
use super::jobs::BuildWarmupJob;
use super::jobs::ProcessMessageJob;
use super::sessions::group_by_conversation;
use super::sessions::ids_of;
use super::sessions::sessions_of;
use crate::model::message::MessageEnvelope;
use crate::model::message::MessageEnvelopeView;
use crate::model::message::MessageId;
use crate::model::message_log::MessageStore;
use crate::model::projection::Projection;
use crate::model::projection::ProjectionView;
use crate::model::projector::DeveloperSnapshotBuilder;
use crate::model::projector::Projector;
use crate::model::projector::RoutingHinter;
use crate::model::projector::ScopeProjector;
use crate::model::projector::SkillBuilder;
use crate::model::projector::WarmupBuilder;
use crate::model::routing::RoutingHintRequest;
use crate::model::routing::RoutingHintView;
use crate::model::scope::ScopeRequest;
use crate::model::scope::ScopeView;
use crate::model::seqs::lookup;
use crate::model::seqs::views;
use crate::model::skill::DeveloperSnapshotRequest;
use crate::model::skill::DeveloperSnapshotRequestView;
use crate::model::skill::SessionDevelopersView;
use crate::model::skill::SkillEntry;
use crate::model::skill::SkillEntryView;
use crate::model::skill::SkillRequest;
use crate::model::skill::TopicOwnershipView;
use crate::model::store::InMemoryDeveloperSnapshotStore;
use crate::model::store::InMemoryProjectionStore;
use crate::model::store::InMemoryRoutingHintStore;
use crate::model::store::InMemoryScopeStore;
use crate::model::store::InMemorySkillStore;
use crate::model::store::InMemoryWarmupStore;
use crate::model::warmup::WarmupDocumentView;
use crate::model::warmup::WarmupRequest;
use vstd::prelude::*;

verus! {

/// The fresh stores that a replay fills.
pub struct ReplayStores {
    pub projections: InMemoryProjectionStore,
    pub scopes: InMemoryScopeStore,
    pub warmups: InMemoryWarmupStore,
    pub skills: InMemorySkillStore,
    pub hints: InMemoryRoutingHintStore,
    pub developers: InMemoryDeveloperSnapshotStore,
}

/// The contents of [`ReplayStores`].
pub struct ReplayStoresView {
    pub projections: Map<Seq<char>, ProjectionView>,
    pub scopes: Map<Seq<char>, ScopeView>,
    pub warmups: Map<Seq<char>, WarmupDocumentView>,
    pub skills: Map<Seq<char>, TopicOwnershipView>,
    pub hints: Map<Seq<char>, RoutingHintView>,
    pub developers: Map<Seq<char>, SessionDevelopersView>,
}

impl View for ReplayStores {
    type V = ReplayStoresView;

    open spec fn view(&self) -> ReplayStoresView {
        ReplayStoresView {
            projections: self.projections@,
            scopes: self.scopes@,
            warmups: self.warmups@,
            skills: self.skills@,
            hints: self.hints@,
            developers: self.developers@,
        }
    }
}

/// Stores that hold nothing.
pub open spec fn empty_stores() -> ReplayStoresView {
    ReplayStoresView {
        projections: Map::empty(),
        scopes: Map::empty(),
        warmups: Map::empty(),
        skills: Map::empty(),
        hints: Map::empty(),
        developers: Map::empty(),
    }
}

impl ReplayStores {
    /// Stores that hold nothing.
    pub fn new() -> (r: Self)
        ensures
            r@ == empty_stores(),
    {
        ReplayStores {
            projections: InMemoryProjectionStore::new(),
            scopes: InMemoryScopeStore::new(),
            warmups: InMemoryWarmupStore::new(),
            skills: InMemorySkillStore::new(),
            hints: InMemoryRoutingHintStore::new(),
            developers: InMemoryDeveloperSnapshotStore::new(),
        }
    }
}

/// The projections upserted one after the other.
pub open spec fn with_projections(
    projections: Map<Seq<char>, ProjectionView>,
    fresh: Seq<ProjectionView>,
) -> Map<Seq<char>, ProjectionView>
    decreases fresh.len(),
{
    if fresh.len() == 0 {
        projections
    } else {
        with_projections(projections, fresh.drop_last()).insert(
            fresh.last().message_id,
            fresh.last(),
        )
    }
}

/// Whether projecting the messages in order may take the projector from `before`
/// to `after` and give `outs`. The projector keeps its kind and its version.
pub open spec fn projects<P: Projector>(
    before: P,
    messages: Seq<MessageEnvelope>,
    after: P,
    outs: Seq<Projection>,
) -> bool
    decreases messages.len(),
{
    if messages.len() == 0 {
        after == before && outs.len() == 0
    } else {
        &&& outs.len() == messages.len()
        &&& after.kind_spec() == before.kind_spec()
        &&& after.version_spec() == before.version_spec()
        &&& exists|between: P|
            projects(before, messages.drop_last(), between, outs.drop_last())
                && between.kind_spec() == before.kind_spec() && between.version_spec()
                == before.version_spec() && #[trigger] between.runs(
                &messages.last(),
                after.memory(),
                &outs.last(),
            )
    }
}

/// The scopes of the sessions.
pub open spec fn scopes_of<S: ScopeProjector>(
    scoper: &S,
    projections: Map<Seq<char>, ProjectionView>,
    sessions: Seq<DeveloperSnapshotRequestView>,
) -> Map<Seq<char>, ScopeView>
    decreases sessions.len(),
{
    if sessions.len() == 0 {
        Map::empty()
    } else {
        let last = sessions.last();
        let scope = scoper.scope_spec(last.conversation, stored(projections, last.messages));
        scopes_of(scoper, projections, sessions.drop_last()).insert(scope.conversation, scope)
    }
}

/// The warm-ups of the sessions.
pub open spec fn warmups_of<W: WarmupBuilder>(
    builder: &W,
    projections: Map<Seq<char>, ProjectionView>,
    scopes: Map<Seq<char>, ScopeView>,
    sessions: Seq<DeveloperSnapshotRequestView>,
) -> Map<Seq<char>, WarmupDocumentView>
    decreases sessions.len(),
{
    if sessions.len() == 0 {
        Map::empty()
    } else {
        let last = sessions.last();
        let document = builder.warmup_spec(
            last.conversation,
            lookup(scopes, last.conversation),
            stored(projections, last.messages),
        );
        warmups_of(builder, projections, scopes, sessions.drop_last()).insert(
            document.conversation,
            document,
        )
    }
}

/// The developers of the sessions.
pub open spec fn developers_of<D: DeveloperSnapshotBuilder>(
    snapshotter: &D,
    projections: Map<Seq<char>, ProjectionView>,
    skills: Map<Seq<char>, TopicOwnershipView>,
    sessions: Seq<DeveloperSnapshotRequestView>,
) -> Map<Seq<char>, SessionDevelopersView>
    decreases sessions.len(),
{
    if sessions.len() == 0 {
        Map::empty()
    } else {
        let last = sessions.last();
        let topics = distinct(topics_in(stored(projections, last.messages)));
        let developers = snapshotter.snapshot_spec(
            last.conversation,
            last.participants,
            stored_ownerships(skills, topics),
        );
        developers_of(snapshotter, projections, skills, sessions.drop_last()).insert(
            developers.conversation,
            developers,
        )
    }
}

/// Each message's author paired with it.
pub open spec fn entries_of(log: Seq<MessageEnvelopeView>) -> Seq<SkillEntryView> {
    log.map_values(
        |m: MessageEnvelopeView|
            SkillEntryView {
                author: m.author.id,
                display_name: m.author.display_name,
                message: m.id,
            },
    )
}

/// The reference strategy: the projection pipeline over a message log.
pub struct ProjectionStrategy<P, S, W, K, H, D> {
    pub projector: P,
    pub scoper: S,
    pub builder: W,
    pub skill_builder: K,
    pub hinter: H,
    pub snapshotter: D,
}

/// The reference strategy by what it does.
pub type Replay<P, S, W, K, H, D> = ProjectionStrategy<P, S, W, K, H, D>;

/// The ids of a log's messages.
fn id_list(log: &Vec<MessageEnvelope>) -> (r: Vec<MessageId>)
    ensures
        views(r@) == ids_of(views(log@)),
{
    let mut out: Vec<MessageId> = Vec::new();
    let mut i: usize = 0;
    while i < log.len()
        invariant
            i <= log@.len(),
            out@.len() == i,
            forall|j: int| 0 <= j < i ==> (#[trigger] out@[j])@ == log@[j]@.id,
        decreases log@.len() - i,
    {
        out.push(log[i].id.clone());
        i = i + 1;
    }
    assert(views(out@) =~= ids_of(views(log@)));
    out
}

/// Each message's author paired with it.
fn entry_list(log: &Vec<MessageEnvelope>) -> (r: Vec<SkillEntry>)
    ensures
        views(r@) == entries_of(views(log@)),
{
    let mut out: Vec<SkillEntry> = Vec::new();
    let mut i: usize = 0;
    while i < log.len()
        invariant
            i <= log@.len(),
            out@.len() == i,
            forall|j: int| 0 <= j < i ==> (#[trigger] out@[j])@ == entries_of(views(log@))[j],
        decreases log@.len() - i,
    {
        let message = &log[i];
        assert(views(log@)[i as int] == message@);
        out.push(
            SkillEntry {
                author: message.author.id.clone(),
                display_name: message.author.display_name.clone(),
                message: message.id.clone(),
            },
        );
        i = i + 1;
    }
    assert(views(out@) =~= entries_of(views(log@)));
    out
}

impl<
    P: Projector,
    S: ScopeProjector,
    W: WarmupBuilder,
    K: SkillBuilder,
    H: RoutingHinter,
    D: DeveloperSnapshotBuilder,
> ProjectionStrategy<P, S, W, K, H, D> {
    /// Builds a replay from the six ports.
    pub fn new(
        projector: P,
        scoper: S,
        builder: W,
        skill_builder: K,
        hinter: H,
        snapshotter: D,
    ) -> (r: Self)
        ensures
            r == (ProjectionStrategy {
                projector,
                scoper,
                builder,
                skill_builder,
                hinter,
                snapshotter,
            }),
    {
        ProjectionStrategy { projector, scoper, builder, skill_builder, hinter, snapshotter }
    }

    /// What follows from a log and the projections of its messages: the scope and
    /// warm-up of each session, the skill index, a hint per message, and the
    /// developers of each session.
    pub open spec fn derived(
        &self,
        log: Seq<MessageEnvelopeView>,
        projections: Map<Seq<char>, ProjectionView>,
    ) -> ReplayStoresView {
        let sessions = sessions_of(log);
        let scopes = scopes_of(&self.scoper, projections, sessions);
        let index = self.skill_builder.index_spec(contributions(projections, entries_of(log)));
        let skills = with_ownerships(Map::empty(), index.ownerships);
        ReplayStoresView {
            projections,
            scopes,
            warmups: warmups_of(&self.builder, projections, scopes, sessions),
            skills,
            hints: with_hints(&self.hinter, projections, skills, Map::empty(), ids_of(log)),
            developers: developers_of(&self.snapshotter, projections, skills, sessions),
        }
    }

    /// Whether a run over a log may leave the strategy as `after` and give
    /// `stores`: the projector projects each message in order, and all else is
    /// derived.
    pub open spec fn replays(
        &self,
        log: Seq<MessageEnvelopeView>,
        after: &Self,
        stores: ReplayStoresView,
    ) -> bool {
        &&& exists|messages: Seq<MessageEnvelope>, outs: Seq<Projection>|
            views(messages) == log && #[trigger] projects(
                self.projector,
                messages,
                after.projector,
                outs,
            ) && stores == self.derived(log, with_projections(Map::empty(), views(outs)))
        &&& after.projector.kind_spec() == self.projector.kind_spec()
        &&& after.projector.version_spec() == self.projector.version_spec()
        &&& after.scoper == self.scoper
        &&& after.builder == self.builder
        &&& after.skill_builder == self.skill_builder
        &&& after.hinter == self.hinter
        &&& after.snapshotter == self.snapshotter
    }

    /// Projects every message of a log into a fresh store.
    fn project_all(&mut self, log: &Vec<MessageEnvelope>) -> (r: InMemoryProjectionStore)
        ensures
            exists|outs: Seq<Projection>| #[trigger]
                projects(old(self).projector, log@, final(self).projector, outs) && r@
                    == with_projections(Map::empty(), views(outs)),
            final(self).projector.kind_spec() == old(self).projector.kind_spec(),
            final(self).projector.version_spec() == old(self).projector.version_spec(),
            final(self).scoper == old(self).scoper,
            final(self).builder == old(self).builder,
            final(self).skill_builder == old(self).skill_builder,
            final(self).hinter == old(self).hinter,
            final(self).snapshotter == old(self).snapshotter,
    {
        let mut projections = InMemoryProjectionStore::new();
        let ghost mut outs: Seq<Projection> = Seq::empty();
        let mut i: usize = 0;
        assert(with_projections(Map::empty(), views(outs)) == Map::<Seq<char>, ProjectionView>::empty());
        while i < log.len()
            invariant
                i <= log@.len(),
                outs.len() == i,
                projects(old(self).projector, log@.take(i as int), self.projector, outs),
                projections@ == with_projections(Map::empty(), views(outs)),
                self.projector.kind_spec() == old(self).projector.kind_spec(),
                self.projector.version_spec() == old(self).projector.version_spec(),
                self.scoper == old(self).scoper,
                self.builder == old(self).builder,
                self.skill_builder == old(self).skill_builder,
                self.hinter == old(self).hinter,
                self.snapshotter == old(self).snapshotter,
            decreases log@.len() - i,
        {
            let ghost between = self.projector;
            let ghost held = projections@;
            {
                let mut job = ProcessMessageJob::new(&mut self.projector, &mut projections);
                job.run(&log[i]);
            }
            proof {
                let message = log@[i as int];
                let out = choose|out: Projection| #[trigger]
                    between.runs(&message, self.projector.memory(), &out) && projections@ == held.insert(
                        out@.message_id,
                        out@,
                    );
                let more = outs.push(out);
                assert(log@.take(i + 1).drop_last() =~= log@.take(i as int));
                assert(log@.take(i + 1).last() == message);
                assert(more.drop_last() =~= outs);
                assert(views(more).drop_last() =~= views(outs));
                assert(views(more).last() == out@);
                let next = log@.take(i + 1);
                assert(projects(old(self).projector, next.drop_last(), between, more.drop_last()));
                assert(between.runs(&next.last(), self.projector.memory(), &more.last()));
                assert(projects(old(self).projector, next, self.projector, more));
                outs = more;
            }
            i = i + 1;
        }
        assert(log@.take(i as int) =~= log@);
        projections
    }

    /// Derives everything that follows from the projections of a log, in phases:
    /// scopes, warm-ups, the skill index, hints, developers.
    pub fn derive(&self, log: &Vec<MessageEnvelope>, projections: InMemoryProjectionStore) -> (r:
        ReplayStores)
        ensures
            r@ == self.derived(views(log@), projections@),
    {
        let sessions = group_by_conversation(log);
        let scopes = self.derive_scopes(&projections, &sessions);
        let warmups = self.derive_warmups(&projections, &scopes, &sessions);
        let mut skills = InMemorySkillStore::new();
        {
            let mut job = BuildSkillJob::new(&projections, &self.skill_builder, &mut skills);
            job.run(&SkillRequest { entries: entry_list(log) });
        }
        let mut hints = InMemoryRoutingHintStore::new();
        {
            let mut job = BuildRoutingHintJob::new(&projections, &skills, &self.hinter, &mut hints);
            job.run(&RoutingHintRequest { messages: id_list(log) });
        }
        let developers = self.derive_developers(&projections, &skills, &sessions);
        ReplayStores { projections, scopes, warmups, skills, hints, developers }
    }

    /// The phase of scopes.
    fn derive_scopes(
        &self,
        projections: &InMemoryProjectionStore,
        sessions: &Vec<DeveloperSnapshotRequest>,
    ) -> (r: InMemoryScopeStore)
        ensures
            r@ == scopes_of(&self.scoper, projections@, views(sessions@)),
    {
        let ghost all = views(sessions@);
        let mut scopes = InMemoryScopeStore::new();
        let mut i: usize = 0;
        while i < sessions.len()
            invariant
                i <= sessions@.len(),
                all == views(sessions@),
                scopes@ == scopes_of(&self.scoper, projections@, all.take(i as int)),
            decreases sessions@.len() - i,
        {
            let session = &sessions[i];
            proof {
                assert(all.take(i + 1).drop_last() =~= all.take(i as int));
                assert(all.take(i + 1).last() == session@);
            }
            let messages = session.messages.clone();
            assert(views(messages@) =~= views(session.messages@));
            let request = ScopeRequest { conversation: session.conversation.clone(), messages };
            let mut job = BuildScopeJob::new(projections, &self.scoper, &mut scopes);
            job.run(&request);
            i = i + 1;
        }
        assert(all.take(i as int) =~= all);
        scopes
    }

    /// The phase of warm-ups.
    fn derive_warmups(
        &self,
        projections: &InMemoryProjectionStore,
        scopes: &InMemoryScopeStore,
        sessions: &Vec<DeveloperSnapshotRequest>,
    ) -> (r: InMemoryWarmupStore)
        ensures
            r@ == warmups_of(&self.builder, projections@, scopes@, views(sessions@)),
    {
        let ghost all = views(sessions@);
        let mut warmups = InMemoryWarmupStore::new();
        let mut i: usize = 0;
        while i < sessions.len()
            invariant
                i <= sessions@.len(),
                all == views(sessions@),
                warmups@ == warmups_of(
                    &self.builder,
                    projections@,
                    scopes@,
                    all.take(i as int),
                ),
            decreases sessions@.len() - i,
        {
            let session = &sessions[i];
            proof {
                assert(all.take(i + 1).drop_last() =~= all.take(i as int));
                assert(all.take(i + 1).last() == session@);
            }
            let messages = session.messages.clone();
            assert(views(messages@) =~= views(session.messages@));
            let request = WarmupRequest { conversation: session.conversation.clone(), messages };
            let mut job = BuildWarmupJob::new(projections, scopes, &self.builder, &mut warmups);
            job.run(&request);
            i = i + 1;
        }
        assert(all.take(i as int) =~= all);
        warmups
    }

    /// The phase of developers.
    fn derive_developers(
        &self,
        projections: &InMemoryProjectionStore,
        skills: &InMemorySkillStore,
        sessions: &Vec<DeveloperSnapshotRequest>,
    ) -> (r: InMemoryDeveloperSnapshotStore)
        ensures
            r@ == developers_of(&self.snapshotter, projections@, skills@, views(sessions@)),
    {
        let ghost all = views(sessions@);
        let mut developers = InMemoryDeveloperSnapshotStore::new();
        let mut i: usize = 0;
        while i < sessions.len()
            invariant
                i <= sessions@.len(),
                all == views(sessions@),
                developers@ == developers_of(
                    &self.snapshotter,
                    projections@,
                    skills@,
                    all.take(i as int),
                ),
            decreases sessions@.len() - i,
        {
            proof {
                assert(all.take(i + 1).drop_last() =~= all.take(i as int));
                assert(all.take(i + 1).last() == sessions@[i as int]@);
            }
            let mut job = BuildDeveloperSnapshotJob::new(
                projections,
                skills,
                &self.snapshotter,
                &mut developers,
            );
            job.run(&sessions[i]);
            i = i + 1;
        }
        assert(all.take(i as int) =~= all);
        developers
    }

    /// Replays a log: projects every message, then derives the rest, into fresh
    /// stores.
    pub fn run_phases(&mut self, log: &Vec<MessageEnvelope>) -> (r: ReplayStores)
        ensures
            old(self).replays(views(log@), final(self), r@),
    {
        let projections = self.project_all(log);
        let r = self.derive(log, projections);
        proof {
            let outs = choose|outs: Seq<Projection>| #[trigger]
                projects(old(self).projector, log@, self.projector, outs) && projections@
                    == with_projections(Map::empty(), views(outs));
            assert(views(log@) == views(log@) && projects(
                old(self).projector,
                log@,
                self.projector,
                outs,
            ));
            assert(self.derived(views(log@), projections@) == old(self).derived(
                views(log@),
                projections@,
            ));
        }
        r
    }

    /// Replays the log of a message store.
    pub fn run<M: MessageStore>(&mut self, messages: &M) -> (r: ReplayStores)
        ensures
            old(self).replays(messages.log(), final(self), r@),
    {
        let log = messages.all();
        self.run_phases(&log)
    }
}

} // verus!
