//! A deterministic, skill-derived developer snapshotter.
//!
//! Per participant it collects the session topics they are a candidate on, best
//! first, ties by ascending topic; developers are ordered by ascending author id.
//! A participant who owns no topic keeps an empty list.

use crate::double::Double;
use crate::model::message::AuthorId;
use crate::model::message::ConversationId;
use crate::model::projector::DeveloperSnapshotBuilder;
use crate::model::seqs::views;
use crate::model::skill::DeveloperSnapshot;
use crate::model::skill::DeveloperSnapshotView;
use crate::model::skill::ExpertCandidate;
use crate::model::skill::ExpertCandidateView;
use crate::model::skill::Participant;
use crate::model::skill::ParticipantView;
use crate::model::skill::SessionDevelopers;
use crate::model::skill::SessionDevelopersView;
use crate::model::skill::TopicOwnership;
use crate::model::skill::TopicOwnershipView;
use crate::model::skill::TopicWeight;
use crate::model::skill::TopicWeightView;
use crate::ordered::insert_sorted;
use crate::ordered::lemma_insert_sorted;
use crate::ordered::stable_sorted;
use crate::text::less;
use crate::text::precedes;
use vstd::prelude::*;

verus! {

/// The score of the first candidate with the given author.
pub open spec fn score_of(candidates: Seq<ExpertCandidateView>, author: Seq<char>) -> Option<Double>
    decreases candidates.len(),
{
    if candidates.len() == 0 {
        None
    } else if candidates[0].author == author {
        Some(candidates[0].score)
    } else {
        score_of(candidates.drop_first(), author)
    }
}

/// The topics on which an author is a candidate, in the order of the ownerships.
pub open spec fn owned(author: Seq<char>, ownerships: Seq<TopicOwnershipView>) -> Seq<TopicWeightView>
    decreases ownerships.len(),
{
    if ownerships.len() == 0 {
        Seq::empty()
    } else {
        let before = owned(author, ownerships.drop_last());
        match score_of(ownerships.last().candidates, author) {
            Some(score) => before.push(
                TopicWeightView { topic: ownerships.last().topic, weight: score },
            ),
            None => before,
        }
    }
}

/// The ranking of topics: the higher weight first, then the smaller topic.
pub open spec fn weighs_before(a: TopicWeightView, b: TopicWeightView) -> bool {
    b.weight.less_spec(a.weight) || (!a.weight.less_spec(b.weight) && precedes(a.topic, b.topic))
}

/// One participant's view of the session.
pub open spec fn snapshot(
    participant: ParticipantView,
    ownerships: Seq<TopicOwnershipView>,
) -> DeveloperSnapshotView {
    DeveloperSnapshotView {
        author: participant.author,
        display_name: participant.display_name,
        topics: stable_sorted(
            owned(participant.author, ownerships),
            |a: TopicWeightView, b: TopicWeightView| weighs_before(a, b),
        ),
    }
}

/// The order of developers: by author id.
pub open spec fn named_before(a: DeveloperSnapshotView, b: DeveloperSnapshotView) -> bool {
    precedes(a.author, b.author)
}

/// Every participant's view of the session, by ascending author id.
pub open spec fn session_developers(
    conversation: Seq<char>,
    participants: Seq<ParticipantView>,
    ownerships: Seq<TopicOwnershipView>,
) -> SessionDevelopersView {
    SessionDevelopersView {
        conversation,
        developers: stable_sorted(
            participants.map_values(|p: ParticipantView| snapshot(p, ownerships)),
            |a: DeveloperSnapshotView, b: DeveloperSnapshotView| named_before(a, b),
        ),
    }
}

/// Finds the first candidate with the given author.
fn find_score(candidates: &Vec<ExpertCandidate>, author: &AuthorId) -> (r: Option<Double>)
    ensures
        r == score_of(views(candidates@), author@),
        r matches Some(score) ==> score.in_unit(),
{
    let ghost all = views(candidates@);
    let mut i: usize = 0;
    assert(all.skip(0) =~= all);
    while i < candidates.len()
        invariant
            i <= candidates@.len(),
            all == views(candidates@),
            score_of(all, author@) == score_of(all.skip(i as int), author@),
        decreases candidates@.len() - i,
    {
        let ghost rest = all.skip(i as int);
        assert(rest[0] == candidates@[i as int]@);
        if candidates[i].author.0 == author.0 {
            return Some(candidates[i].score.get());
        }
        assert(rest.drop_first() =~= all.skip(i + 1));
        i = i + 1;
    }
    None
}

/// The ranking of topics, computed.
fn weighs_ahead(a: &TopicWeight, b: &TopicWeight) -> (r: bool)
    ensures
        r == weighs_before(a@, b@),
{
    if b.weight.less(a.weight) {
        true
    } else if a.weight.less(b.weight) {
        false
    } else {
        less(a.topic.0.as_str(), b.topic.0.as_str())
    }
}

/// Puts a topic into a ranked list.
fn weigh_into(ranked: &mut Vec<TopicWeight>, fresh: TopicWeight)
    ensures
        views(final(ranked)@) == insert_sorted(
            views(old(ranked)@),
            fresh@,
            |a: TopicWeightView, b: TopicWeightView| weighs_before(a, b),
        ),
{
    let mut at: usize = ranked.len();
    while at > 0 && weighs_ahead(&fresh, &ranked[at - 1])
        invariant
            at <= ranked@.len(),
            forall|i: int| at <= i < ranked@.len() ==> weighs_before(fresh@, #[trigger] ranked@[i]@),
        decreases at,
    {
        at = at - 1;
    }
    let ghost before = views(ranked@);
    let ghost added = fresh@;
    proof {
        assert forall|i: int| at <= i < before.len() implies weighs_before(
            added,
            #[trigger] before[i],
        ) by {
            assert(before[i] == ranked@[i]@);
        }
        if at > 0 {
            assert(before[at - 1] == ranked@[at - 1]@);
        }
        lemma_insert_sorted(
            before,
            added,
            |a: TopicWeightView, b: TopicWeightView| weighs_before(a, b),
            at as int,
        );
    }
    ranked.insert(at, fresh);
    assert(views(ranked@) =~= before.insert(at as int, added));
}

/// Puts a developer into a list ordered by author id.
fn place_into(placed: &mut Vec<DeveloperSnapshot>, fresh: DeveloperSnapshot)
    ensures
        views(final(placed)@) == insert_sorted(
            views(old(placed)@),
            fresh@,
            |a: DeveloperSnapshotView, b: DeveloperSnapshotView| named_before(a, b),
        ),
{
    let mut at: usize = placed.len();
    while at > 0 && less(fresh.author.0.as_str(), placed[at - 1].author.0.as_str())
        invariant
            at <= placed@.len(),
            forall|i: int| at <= i < placed@.len() ==> named_before(fresh@, #[trigger] placed@[i]@),
        decreases at,
    {
        at = at - 1;
    }
    let ghost before = views(placed@);
    let ghost added = fresh@;
    proof {
        assert forall|i: int| at <= i < before.len() implies named_before(
            added,
            #[trigger] before[i],
        ) by {
            assert(before[i] == placed@[i]@);
        }
        if at > 0 {
            assert(before[at - 1] == placed@[at - 1]@);
        }
        lemma_insert_sorted(
            before,
            added,
            |a: DeveloperSnapshotView, b: DeveloperSnapshotView| named_before(a, b),
            at as int,
        );
    }
    placed.insert(at, fresh);
    assert(views(placed@) =~= before.insert(at as int, added));
}

/// One participant's view of the session.
fn snapshot_of(participant: &Participant, ownerships: &[TopicOwnership]) -> (r: DeveloperSnapshot)
    ensures
        r@ == snapshot(participant@, views(ownerships@)),
{
    let ghost all = views(ownerships@);
    let ghost order = |a: TopicWeightView, b: TopicWeightView| weighs_before(a, b);
    let mut topics: Vec<TopicWeight> = Vec::new();
    let mut i: usize = 0;
    assert(views(topics@) =~= stable_sorted(owned(participant.author@, all.take(0)), order));
    while i < ownerships.len()
        invariant
            i <= ownerships@.len(),
            all == views(ownerships@),
            order == (|a: TopicWeightView, b: TopicWeightView| weighs_before(a, b)),
            views(topics@) == stable_sorted(owned(participant.author@, all.take(i as int)), order),
        decreases ownerships@.len() - i,
    {
        let ownership = &ownerships[i];
        let ghost before = owned(participant.author@, all.take(i as int));
        proof {
            assert(all.take(i + 1).drop_last() =~= all.take(i as int));
            assert(all.take(i + 1).last() == ownership@);
        }
        if let Some(score) = find_score(&ownership.candidates, &participant.author) {
            let fresh = TopicWeight { topic: ownership.topic.clone(), weight: score };
            proof {
                let after = owned(participant.author@, all.take(i + 1));
                assert(after == before.push(fresh@));
                assert(after.drop_last() =~= before);
            }
            weigh_into(&mut topics, fresh);
        }
        i = i + 1;
    }
    assert(all.take(i as int) =~= all);
    DeveloperSnapshot {
        author: participant.author.clone(),
        display_name: participant.display_name.clone(),
        topics,
    }
}

/// A deterministic [`DeveloperSnapshotBuilder`] over the skill index.
#[derive(Clone, Copy, Debug)]
pub struct SkillDeveloperSnapshotter;

impl SkillDeveloperSnapshotter {
    /// Creates a skill developer snapshotter.
    pub fn new() -> (r: Self) {
        SkillDeveloperSnapshotter
    }
}

impl Default for SkillDeveloperSnapshotter {
    fn default() -> (r: Self) {
        SkillDeveloperSnapshotter
    }
}

impl DeveloperSnapshotBuilder for SkillDeveloperSnapshotter {
    open spec fn snapshot_spec(
        &self,
        conversation: Seq<char>,
        participants: Seq<ParticipantView>,
        ownerships: Seq<TopicOwnershipView>,
    ) -> SessionDevelopersView {
        session_developers(conversation, participants, ownerships)
    }

    fn build(
        &self,
        conversation: &ConversationId,
        participants: &[Participant],
        ownerships: &[TopicOwnership],
    ) -> (r: SessionDevelopers) {
        let ghost plain = views(participants@).map_values(
            |p: ParticipantView| snapshot(p, views(ownerships@)),
        );
        let ghost order = |a: DeveloperSnapshotView, b: DeveloperSnapshotView| named_before(a, b);
        let mut developers: Vec<DeveloperSnapshot> = Vec::new();
        let mut i: usize = 0;
        assert(views(developers@) =~= stable_sorted(plain.take(0), order));
        while i < participants.len()
            invariant
                i <= participants@.len(),
                plain == views(participants@).map_values(
                    |p: ParticipantView| snapshot(p, views(ownerships@)),
                ),
                order == (|a: DeveloperSnapshotView, b: DeveloperSnapshotView| named_before(a, b)),
                views(developers@) == stable_sorted(plain.take(i as int), order),
            decreases participants@.len() - i,
        {
            let fresh = snapshot_of(&participants[i], ownerships);
            proof {
                assert(views(participants@)[i as int] == participants@[i as int]@);
                assert(plain[i as int] == fresh@);
                assert(plain.take(i + 1).drop_last() =~= plain.take(i as int));
                assert(plain.take(i + 1).last() == fresh@);
            }
            place_into(&mut developers, fresh);
            i = i + 1;
        }
        assert(plain.take(i as int) =~= plain);
        SessionDevelopers { conversation: conversation.clone(), developers }
    }
}

} // verus!
