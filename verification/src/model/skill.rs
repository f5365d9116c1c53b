//! The skill model: who is suited to a topic, derived from authored messages.

use super::message::AuthorId;
use super::message::ConversationId;
use super::message::MessageId;
use super::projection::Confidence;
use super::projection::Topic;
use super::seqs::views;
use crate::double::Double;
use vstd::prelude::*;

verus! {

/// A ranking score constrained to `0.0..=1.0`.
///
/// Construction clamps into range, so an out-of-range value cannot exist.
#[derive(Clone, Copy, Debug, PartialEq)]
pub struct SkillScore {
    value: Double,
}

impl View for SkillScore {
    type V = Double;

    closed spec fn view(&self) -> Double {
        self.value
    }
}

impl SkillScore {
    /// Every value lies in `0.0..=1.0`.
    #[verifier::type_invariant]
    closed spec fn in_range(self) -> bool {
        self.value.in_unit()
    }

    /// Clamps the value into `0.0..=1.0`; what is not a number becomes `0.0`.
    pub fn new(value: Double) -> (r: Self)
        ensures
            r@ == value.clamp_unit_spec(),
            r@.in_unit(),
    {
        SkillScore { value: value.clamp_unit() }
    }

    /// The underlying score.
    pub fn get(self) -> (r: Double)
        ensures
            r == self@,
            r.in_unit(),
    {
        proof {
            use_type_invariant(&self);
        }
        self.value
    }
}

impl From<Double> for SkillScore {
    fn from(value: Double) -> (r: Self)
        ensures
            r@ == value.clamp_unit_spec(),
    {
        SkillScore::new(value)
    }
}

impl vstd::std_specs::convert::FromSpecImpl<Double> for SkillScore {
    open spec fn obeys_from_spec() -> bool {
        true
    }

    closed spec fn from_spec(v: Double) -> Self {
        SkillScore { value: v.clamp_unit_spec() }
    }
}

/// How much an author touches one topic.
#[derive(Debug, PartialEq)]
pub struct TopicWeight {
    pub topic: Topic,
    pub weight: Double,
}

/// The contents of a [`TopicWeight`].
pub struct TopicWeightView {
    pub topic: Seq<char>,
    pub weight: Double,
}

impl View for TopicWeight {
    type V = TopicWeightView;

    open spec fn view(&self) -> TopicWeightView {
        TopicWeightView {
            topic: self.topic@,
            weight: self.weight,
        }
    }
}

impl Clone for TopicWeight {
    fn clone(&self) -> (r: Self)
        ensures
            r@ == self@,
    {
        let r = TopicWeight {
            topic: self.topic.clone(),
            weight: self.weight,
        };
        r
    }
}

/// An author and the topics they touch, with weights.
#[derive(Debug, PartialEq)]
pub struct DeveloperProfile {
    pub author: AuthorId,
    pub display_name: String,
    pub topics: Vec<TopicWeight>,
}

/// The contents of a [`DeveloperProfile`].
pub struct DeveloperProfileView {
    pub author: Seq<char>,
    pub display_name: Seq<char>,
    pub topics: Seq<TopicWeightView>,
}

impl View for DeveloperProfile {
    type V = DeveloperProfileView;

    open spec fn view(&self) -> DeveloperProfileView {
        DeveloperProfileView {
            author: self.author@,
            display_name: self.display_name@,
            topics: views(self.topics@),
        }
    }
}

impl Clone for DeveloperProfile {
    fn clone(&self) -> (r: Self)
        ensures
            r@ == self@,
    {
        let r = DeveloperProfile {
            author: self.author.clone(),
            display_name: self.display_name.clone(),
            topics: self.topics.clone(),
        };
        assert(views(r.topics@) =~= views(self.topics@));
        r
    }
}

/// An author suited to a topic, with a normalized score.
#[derive(Debug, PartialEq)]
pub struct ExpertCandidate {
    pub author: AuthorId,
    pub display_name: String,
    pub score: SkillScore,
}

/// The contents of a [`ExpertCandidate`].
pub struct ExpertCandidateView {
    pub author: Seq<char>,
    pub display_name: Seq<char>,
    pub score: Double,
}

impl View for ExpertCandidate {
    type V = ExpertCandidateView;

    open spec fn view(&self) -> ExpertCandidateView {
        ExpertCandidateView {
            author: self.author@,
            display_name: self.display_name@,
            score: self.score@,
        }
    }
}

impl Clone for ExpertCandidate {
    fn clone(&self) -> (r: Self)
        ensures
            r@ == self@,
    {
        let r = ExpertCandidate {
            author: self.author.clone(),
            display_name: self.display_name.clone(),
            score: self.score,
        };
        r
    }
}

/// A topic and its expert candidates, best first.
#[derive(Debug, PartialEq)]
pub struct TopicOwnership {
    pub topic: Topic,
    pub candidates: Vec<ExpertCandidate>,
}

/// The contents of a [`TopicOwnership`].
pub struct TopicOwnershipView {
    pub topic: Seq<char>,
    pub candidates: Seq<ExpertCandidateView>,
}

impl View for TopicOwnership {
    type V = TopicOwnershipView;

    open spec fn view(&self) -> TopicOwnershipView {
        TopicOwnershipView {
            topic: self.topic@,
            candidates: views(self.candidates@),
        }
    }
}

impl Clone for TopicOwnership {
    fn clone(&self) -> (r: Self)
        ensures
            r@ == self@,
    {
        let r = TopicOwnership {
            topic: self.topic.clone(),
            candidates: self.candidates.clone(),
        };
        assert(views(r.candidates@) =~= views(self.candidates@));
        r
    }
}

/// The full skill index: profiles by author, ownership by topic.
#[derive(Debug, PartialEq)]
pub struct SkillIndex {
    pub profiles: Vec<DeveloperProfile>,
    pub ownerships: Vec<TopicOwnership>,
}

/// The contents of a [`SkillIndex`].
pub struct SkillIndexView {
    pub profiles: Seq<DeveloperProfileView>,
    pub ownerships: Seq<TopicOwnershipView>,
}

impl View for SkillIndex {
    type V = SkillIndexView;

    open spec fn view(&self) -> SkillIndexView {
        SkillIndexView {
            profiles: views(self.profiles@),
            ownerships: views(self.ownerships@),
        }
    }
}

impl Clone for SkillIndex {
    fn clone(&self) -> (r: Self)
        ensures
            r@ == self@,
    {
        let r = SkillIndex {
            profiles: self.profiles.clone(),
            ownerships: self.ownerships.clone(),
        };
        assert(views(r.profiles@) =~= views(self.profiles@));
        assert(views(r.ownerships@) =~= views(self.ownerships@));
        r
    }
}

/// One message's contribution to the index: its author, and the topics and confidence of
/// its projection.
#[derive(Debug, PartialEq)]
pub struct SkillContribution {
    pub author: AuthorId,
    pub display_name: String,
    pub topics: Vec<Topic>,
    pub confidence: Confidence,
}

/// The contents of a [`SkillContribution`].
pub struct SkillContributionView {
    pub author: Seq<char>,
    pub display_name: Seq<char>,
    pub topics: Seq<Seq<char>>,
    pub confidence: Double,
}

impl View for SkillContribution {
    type V = SkillContributionView;

    open spec fn view(&self) -> SkillContributionView {
        SkillContributionView {
            author: self.author@,
            display_name: self.display_name@,
            topics: views(self.topics@),
            confidence: self.confidence@,
        }
    }
}

impl Clone for SkillContribution {
    fn clone(&self) -> (r: Self)
        ensures
            r@ == self@,
    {
        let r = SkillContribution {
            author: self.author.clone(),
            display_name: self.display_name.clone(),
            topics: self.topics.clone(),
            confidence: self.confidence,
        };
        assert(views(r.topics@) =~= views(self.topics@));
        r
    }
}

/// One participant's view of a session: which of its topics they own, best first.
#[derive(Debug, PartialEq)]
pub struct DeveloperSnapshot {
    pub author: AuthorId,
    pub display_name: String,
    pub topics: Vec<TopicWeight>,
}

/// The contents of a [`DeveloperSnapshot`].
pub struct DeveloperSnapshotView {
    pub author: Seq<char>,
    pub display_name: Seq<char>,
    pub topics: Seq<TopicWeightView>,
}

impl View for DeveloperSnapshot {
    type V = DeveloperSnapshotView;

    open spec fn view(&self) -> DeveloperSnapshotView {
        DeveloperSnapshotView {
            author: self.author@,
            display_name: self.display_name@,
            topics: views(self.topics@),
        }
    }
}

impl Clone for DeveloperSnapshot {
    fn clone(&self) -> (r: Self)
        ensures
            r@ == self@,
    {
        let r = DeveloperSnapshot {
            author: self.author.clone(),
            display_name: self.display_name.clone(),
            topics: self.topics.clone(),
        };
        assert(views(r.topics@) =~= views(self.topics@));
        r
    }
}

/// The developers of one session.
#[derive(Debug, PartialEq)]
pub struct SessionDevelopers {
    pub conversation: ConversationId,
    pub developers: Vec<DeveloperSnapshot>,
}

/// The contents of a [`SessionDevelopers`].
pub struct SessionDevelopersView {
    pub conversation: Seq<char>,
    pub developers: Seq<DeveloperSnapshotView>,
}

impl View for SessionDevelopers {
    type V = SessionDevelopersView;

    open spec fn view(&self) -> SessionDevelopersView {
        SessionDevelopersView {
            conversation: self.conversation@,
            developers: views(self.developers@),
        }
    }
}

impl Clone for SessionDevelopers {
    fn clone(&self) -> (r: Self)
        ensures
            r@ == self@,
    {
        let r = SessionDevelopers {
            conversation: self.conversation.clone(),
            developers: self.developers.clone(),
        };
        assert(views(r.developers@) =~= views(self.developers@));
        r
    }
}

/// One participant in a conversation.
#[derive(Debug, PartialEq, Eq)]
pub struct Participant {
    pub author: AuthorId,
    pub display_name: String,
}

/// The contents of a [`Participant`].
pub struct ParticipantView {
    pub author: Seq<char>,
    pub display_name: Seq<char>,
}

impl View for Participant {
    type V = ParticipantView;

    open spec fn view(&self) -> ParticipantView {
        ParticipantView {
            author: self.author@,
            display_name: self.display_name@,
        }
    }
}

impl Clone for Participant {
    fn clone(&self) -> (r: Self)
        ensures
            r@ == self@,
    {
        let r = Participant {
            author: self.author.clone(),
            display_name: self.display_name.clone(),
        };
        r
    }
}

/// A request to build the developer snapshot of one session.
#[derive(Debug, PartialEq, Eq)]
pub struct DeveloperSnapshotRequest {
    pub conversation: ConversationId,
    pub participants: Vec<Participant>,
    pub messages: Vec<MessageId>,
}

/// The contents of a [`DeveloperSnapshotRequest`].
pub struct DeveloperSnapshotRequestView {
    pub conversation: Seq<char>,
    pub participants: Seq<ParticipantView>,
    pub messages: Seq<Seq<char>>,
}

impl View for DeveloperSnapshotRequest {
    type V = DeveloperSnapshotRequestView;

    open spec fn view(&self) -> DeveloperSnapshotRequestView {
        DeveloperSnapshotRequestView {
            conversation: self.conversation@,
            participants: views(self.participants@),
            messages: views(self.messages@),
        }
    }
}

impl Clone for DeveloperSnapshotRequest {
    fn clone(&self) -> (r: Self)
        ensures
            r@ == self@,
    {
        let r = DeveloperSnapshotRequest {
            conversation: self.conversation.clone(),
            participants: self.participants.clone(),
            messages: self.messages.clone(),
        };
        assert(views(r.participants@) =~= views(self.participants@));
        assert(views(r.messages@) =~= views(self.messages@));
        r
    }
}

/// One author paired with a message of theirs.
#[derive(Debug, PartialEq, Eq)]
pub struct SkillEntry {
    pub author: AuthorId,
    pub display_name: String,
    pub message: MessageId,
}

/// The contents of a [`SkillEntry`].
pub struct SkillEntryView {
    pub author: Seq<char>,
    pub display_name: Seq<char>,
    pub message: Seq<char>,
}

impl View for SkillEntry {
    type V = SkillEntryView;

    open spec fn view(&self) -> SkillEntryView {
        SkillEntryView {
            author: self.author@,
            display_name: self.display_name@,
            message: self.message@,
        }
    }
}

impl Clone for SkillEntry {
    fn clone(&self) -> (r: Self)
        ensures
            r@ == self@,
    {
        let r = SkillEntry {
            author: self.author.clone(),
            display_name: self.display_name.clone(),
            message: self.message.clone(),
        };
        r
    }
}

/// A request to build the skill index from a set of authored messages.
#[derive(Debug, PartialEq, Eq)]
pub struct SkillRequest {
    pub entries: Vec<SkillEntry>,
}

/// The contents of a [`SkillRequest`].
pub struct SkillRequestView {
    pub entries: Seq<SkillEntryView>,
}

impl View for SkillRequest {
    type V = SkillRequestView;

    open spec fn view(&self) -> SkillRequestView {
        SkillRequestView {
            entries: views(self.entries@),
        }
    }
}

impl Clone for SkillRequest {
    fn clone(&self) -> (r: Self)
        ensures
            r@ == self@,
    {
        let r = SkillRequest {
            entries: self.entries.clone(),
        };
        assert(views(r.entries@) =~= views(self.entries@));
        r
    }
}

} // verus!
