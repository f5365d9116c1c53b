//! When two derived values are equal: field by field, scores as numbers.

use super::derivation::ConversationDerivation;
use super::derivation::ConversationDerivationView;
use super::message::MessageId;
use super::projection::Entity;
use super::projection::Projection;
use super::projection::ProjectionView;
use super::projection::Topic;
use super::routing::RoutingHint;
use super::routing::RoutingHintView;
use super::scope::Component;
use super::scope::Scope;
use super::scope::ScopeView;
use super::seqs::view_of;
use super::seqs::views;
use super::skill::DeveloperSnapshot;
use super::skill::DeveloperSnapshotView;
use super::skill::ExpertCandidate;
use super::skill::ExpertCandidateView;
use super::skill::SessionDevelopers;
use super::skill::SessionDevelopersView;
use super::skill::TopicWeight;
use super::skill::TopicWeightView;
use super::warmup::WarmupDocument;
use super::warmup::WarmupDocumentView;
use vstd::prelude::*;

verus! {

/// A value that can be compared with another of its kind.
pub trait Alike: View + Sized {
    /// Whether two values are equal.
    spec fn alike(a: Self::V, b: Self::V) -> bool;

    /// Compares two values.
    fn same_as(&self, other: &Self) -> (r: bool)
        ensures
            r == Self::alike(self@, other@),
    ;
}

/// Whether two lists are equal, item by item.
pub open spec fn alike_all<T: Alike>(a: Seq<T::V>, b: Seq<T::V>) -> bool {
    a.len() == b.len() && forall|i: int| 0 <= i < a.len() ==> T::alike(#[trigger] a[i], b[i])
}

/// Whether two optional values are equal.
pub open spec fn alike_option<T: Alike>(a: Option<T::V>, b: Option<T::V>) -> bool {
    match (a, b) {
        (Some(x), Some(y)) => T::alike(x, y),
        (None, None) => true,
        _ => false,
    }
}

/// Compares two lists.
pub fn same_all<T: Alike>(a: &Vec<T>, b: &Vec<T>) -> (r: bool)
    ensures
        r == alike_all::<T>(views(a@), views(b@)),
{
    if a.len() != b.len() {
        return false;
    }
    let mut i: usize = 0;
    while i < a.len()
        invariant
            i <= a@.len(),
            a@.len() == b@.len(),
            forall|j: int| 0 <= j < i ==> T::alike(#[trigger] views(a@)[j], views(b@)[j]),
        decreases a@.len() - i,
    {
        if !a[i].same_as(&b[i]) {
            assert(!T::alike(views(a@)[i as int], views(b@)[i as int]));
            return false;
        }
        i = i + 1;
    }
    true
}

/// Compares two optional values.
pub fn same_option<T: Alike>(a: &Option<T>, b: &Option<T>) -> (r: bool)
    ensures
        r == alike_option::<T>(view_of(*a), view_of(*b)),
{
    match (a, b) {
        (Some(x), Some(y)) => x.same_as(y),
        (None, None) => true,
        _ => false,
    }
}

impl Alike for MessageId {
    open spec fn alike(a: Seq<char>, b: Seq<char>) -> bool {
        a == b
    }

    fn same_as(&self, other: &Self) -> (r: bool) {
        self.0 == other.0
    }
}

impl Alike for Topic {
    open spec fn alike(a: Seq<char>, b: Seq<char>) -> bool {
        a == b
    }

    fn same_as(&self, other: &Self) -> (r: bool) {
        self.0 == other.0
    }
}

impl Alike for Entity {
    open spec fn alike(a: Seq<char>, b: Seq<char>) -> bool {
        a == b
    }

    fn same_as(&self, other: &Self) -> (r: bool) {
        self.0 == other.0
    }
}

impl Alike for Component {
    open spec fn alike(a: Seq<char>, b: Seq<char>) -> bool {
        a == b
    }

    fn same_as(&self, other: &Self) -> (r: bool) {
        self.0 == other.0
    }
}

impl Alike for Projection {
    open spec fn alike(a: ProjectionView, b: ProjectionView) -> bool {
        &&& a.message_id == b.message_id
        &&& a.intent == b.intent
        &&& alike_all::<Topic>(a.topics, b.topics)
        &&& alike_all::<Entity>(a.entities, b.entities)
        &&& a.confidence.equals_spec(b.confidence)
    }

    fn same_as(&self, other: &Self) -> (r: bool) {
        self.message_id.0 == other.message_id.0 && self.intent == other.intent && same_all(
            &self.topics,
            &other.topics,
        ) && same_all(&self.entities, &other.entities) && self.confidence.get().equals(
            other.confidence.get(),
        )
    }
}

impl Alike for Scope {
    open spec fn alike(a: ScopeView, b: ScopeView) -> bool {
        &&& a.conversation == b.conversation
        &&& alike_all::<Component>(a.load, b.load)
        &&& alike_all::<Component>(a.ignore, b.ignore)
        &&& a.reason == b.reason
        &&& a.confidence.equals_spec(b.confidence)
    }

    fn same_as(&self, other: &Self) -> (r: bool) {
        self.conversation.0 == other.conversation.0 && same_all(&self.load, &other.load) && same_all(
            &self.ignore,
            &other.ignore,
        ) && self.reason == other.reason && self.confidence.get().equals(other.confidence.get())
    }
}

impl Alike for WarmupDocument {
    open spec fn alike(a: WarmupDocumentView, b: WarmupDocumentView) -> bool {
        &&& a.conversation == b.conversation
        &&& alike_all::<Component>(a.focus, b.focus)
        &&& alike_all::<MessageId>(a.decisions, b.decisions)
        &&& alike_all::<MessageId>(a.open_questions, b.open_questions)
        &&& alike_all::<MessageId>(a.tasks, b.tasks)
        &&& a.summary == b.summary
    }

    fn same_as(&self, other: &Self) -> (r: bool) {
        self.conversation.0 == other.conversation.0 && same_all(&self.focus, &other.focus)
            && same_all(&self.decisions, &other.decisions) && same_all(
            &self.open_questions,
            &other.open_questions,
        ) && same_all(&self.tasks, &other.tasks) && self.summary == other.summary
    }
}

impl Alike for TopicWeight {
    open spec fn alike(a: TopicWeightView, b: TopicWeightView) -> bool {
        a.topic == b.topic && a.weight.equals_spec(b.weight)
    }

    fn same_as(&self, other: &Self) -> (r: bool) {
        self.topic.0 == other.topic.0 && self.weight.equals(other.weight)
    }
}

impl Alike for DeveloperSnapshot {
    open spec fn alike(a: DeveloperSnapshotView, b: DeveloperSnapshotView) -> bool {
        &&& a.author == b.author
        &&& a.display_name == b.display_name
        &&& alike_all::<TopicWeight>(a.topics, b.topics)
    }

    fn same_as(&self, other: &Self) -> (r: bool) {
        self.author.0 == other.author.0 && self.display_name == other.display_name && same_all(
            &self.topics,
            &other.topics,
        )
    }
}

impl Alike for SessionDevelopers {
    open spec fn alike(a: SessionDevelopersView, b: SessionDevelopersView) -> bool {
        a.conversation == b.conversation && alike_all::<DeveloperSnapshot>(
            a.developers,
            b.developers,
        )
    }

    fn same_as(&self, other: &Self) -> (r: bool) {
        self.conversation.0 == other.conversation.0 && same_all(
            &self.developers,
            &other.developers,
        )
    }
}

impl Alike for ExpertCandidate {
    open spec fn alike(a: ExpertCandidateView, b: ExpertCandidateView) -> bool {
        &&& a.author == b.author
        &&& a.display_name == b.display_name
        &&& a.score.equals_spec(b.score)
    }

    fn same_as(&self, other: &Self) -> (r: bool) {
        self.author.0 == other.author.0 && self.display_name == other.display_name
            && self.score.get().equals(other.score.get())
    }
}

impl Alike for RoutingHint {
    open spec fn alike(a: RoutingHintView, b: RoutingHintView) -> bool {
        &&& a.message_id == b.message_id
        &&& alike_all::<ExpertCandidate>(a.reviewers, b.reviewers)
        &&& alike_option::<ExpertCandidate>(a.human_hint, b.human_hint)
    }

    fn same_as(&self, other: &Self) -> (r: bool) {
        self.message_id.0 == other.message_id.0 && same_all(&self.reviewers, &other.reviewers)
            && same_option(&self.human_hint, &other.human_hint)
    }
}

impl Alike for ConversationDerivation {
    open spec fn alike(a: ConversationDerivationView, b: ConversationDerivationView) -> bool {
        &&& a.conversation == b.conversation
        &&& alike_all::<Projection>(a.projections, b.projections)
        &&& alike_option::<Scope>(a.scope, b.scope)
        &&& WarmupDocument::alike(a.warmup, b.warmup)
        &&& alike_option::<SessionDevelopers>(a.developers, b.developers)
        &&& alike_all::<RoutingHint>(a.hints, b.hints)
    }

    fn same_as(&self, other: &Self) -> (r: bool) {
        self.conversation.0 == other.conversation.0 && same_all(
            &self.projections,
            &other.projections,
        ) && same_option(&self.scope, &other.scope) && self.warmup.same_as(&other.warmup)
            && same_option(&self.developers, &other.developers) && same_all(
            &self.hints,
            &other.hints,
        )
    }
}

} // verus!
