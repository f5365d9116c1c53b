//! The ports: message to projection, session to scope and warm-up, log to skill
//! index, projection to routing.
//!
//! Every port but the message projector is a function of its arguments, which
//! keeps a replay deterministic.

use super::message::ConversationId;
use super::message::MessageEnvelope;
use super::projection::Projection;
use super::projection::ProjectionView;
use super::routing::RoutingDecision;
use super::routing::RoutingDecisionView;
use super::routing::RoutingHint;
use super::routing::RoutingHintView;
use super::routing::RoutingTrace;
use super::routing::RoutingTraceView;
use super::scope::Scope;
use super::scope::ScopeView;
use super::seqs::views;
use super::skill::Participant;
use super::skill::ParticipantView;
use super::skill::SessionDevelopers;
use super::skill::SessionDevelopersView;
use super::skill::SkillContribution;
use super::skill::SkillContributionView;
use super::skill::SkillIndex;
use super::skill::SkillIndexView;
use super::skill::TopicOwnership;
use super::skill::TopicOwnershipView;
use super::warmup::WarmupDocument;
use super::warmup::WarmupDocumentView;
use crate::runtime::step::Step;
use vstd::prelude::*;

verus! {

/// Maps a message to a projection: a named view of a [`Step`] from
/// [`MessageEnvelope`] to [`Projection`]. Implement [`Step`] for a projector.
pub trait Projector: Step<In = MessageEnvelope, Out = Projection> {
    /// Projects a message: a run of the step.
    fn project(&mut self, message: &MessageEnvelope) -> (out: Projection)
        ensures
            old(self).runs(message, final(self).memory(), &out),
            final(self).kind_spec() == old(self).kind_spec(),
            final(self).version_spec() == old(self).version_spec(),
    {
        self.run(message)
    }
}

impl<T> Projector for T where T: Step<In = MessageEnvelope, Out = Projection> {

}

/// Maps a session to its scope.
pub trait ScopeProjector {
    /// The scope of a conversation with the given projections.
    open spec fn scope_spec(&self, conversation: Seq<char>, projections: Seq<ProjectionView>) -> ScopeView {
        arbitrary()
    }

    /// Derives the scope.
    fn scope(&self, conversation: &ConversationId, projections: &[Projection]) -> (r: Scope)
        ensures
            r@ == self.scope_spec(conversation@, views(projections@)),
    ;
}

/// Maps a session to its warm-up.
pub trait WarmupBuilder {
    /// The warm-up of a conversation with the given scope and projections.
    open spec fn warmup_spec(
        &self,
        conversation: Seq<char>,
        scope: Option<ScopeView>,
        projections: Seq<ProjectionView>,
    ) -> WarmupDocumentView {
        arbitrary()
    }

    /// Builds the warm-up.
    fn build(
        &self,
        conversation: &ConversationId,
        scope: Option<&Scope>,
        projections: &[Projection],
    ) -> (r: WarmupDocument)
        ensures
            r@ == self.warmup_spec(
                conversation@,
                match scope {
                    Some(s) => Some(s@),
                    None => None,
                },
                views(projections@),
            ),
    ;
}

/// Builds the skill index from the contributions of the whole log.
pub trait SkillBuilder {
    /// The index of the given contributions.
    open spec fn index_spec(&self, contributions: Seq<SkillContributionView>) -> SkillIndexView {
        arbitrary()
    }

    /// Builds the index.
    fn build(&self, contributions: &[SkillContribution]) -> (r: SkillIndex)
        ensures
            r@ == self.index_spec(views(contributions@)),
    ;
}

/// Decides which consumer a projection goes to, and why.
pub trait Router {
    /// The decision and its trace for a projection.
    open spec fn route_spec(&self, projection: ProjectionView) -> (RoutingDecisionView, RoutingTraceView) {
        arbitrary()
    }

    /// Routes a projection.
    fn route(&self, projection: &Projection) -> (r: (RoutingDecision, RoutingTrace))
        ensures
            (r.0@, r.1@) == self.route_spec(projection@),
    ;
}

/// Maps a projection and the ownerships of its topics to a routing hint.
pub trait RoutingHinter {
    /// The hint for a projection under the given ownerships.
    open spec fn hint_spec(
        &self,
        projection: ProjectionView,
        ownerships: Seq<TopicOwnershipView>,
    ) -> RoutingHintView {
        arbitrary()
    }

    /// Derives the hint.
    fn hint(&self, projection: &Projection, ownerships: &[TopicOwnership]) -> (r: RoutingHint)
        ensures
            r@ == self.hint_spec(projection@, views(ownerships@)),
    ;
}

/// Maps a session and the ownerships of its topics to its developers.
pub trait DeveloperSnapshotBuilder {
    /// The developers of a conversation.
    open spec fn snapshot_spec(
        &self,
        conversation: Seq<char>,
        participants: Seq<ParticipantView>,
        ownerships: Seq<TopicOwnershipView>,
    ) -> SessionDevelopersView {
        arbitrary()
    }

    /// Derives the developers.
    fn build(
        &self,
        conversation: &ConversationId,
        participants: &[Participant],
        ownerships: &[TopicOwnership],
    ) -> (r: SessionDevelopers)
        ensures
            r@ == self.snapshot_spec(conversation@, views(participants@), views(ownerships@)),
    ;
}

} // verus!
