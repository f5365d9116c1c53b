//! A deterministic, skill-derived routing hinter.
//!
//! Each candidate's score is summed over the projection's own topics, and the
//! sums are ranked by the very rules of the skill builder: the strongest candidate
//! scores `1.0`, the best comes first, ties go by ascending author id. The top
//! candidate is the human hint.

use super::skill::owner_ranking;
use super::skill::ownership;
use crate::model::projection::Confidence;
use crate::model::projection::Projection;
use crate::model::projection::ProjectionView;
use crate::model::projection::Topic;
use crate::model::projector::RoutingHinter;
use crate::model::routing::RoutingHint;
use crate::model::routing::RoutingHintView;
use crate::model::seqs::views;
use crate::model::skill::ExpertCandidateView;
use crate::model::skill::SkillContribution;
use crate::model::skill::SkillContributionView;
use crate::model::skill::TopicOwnership;
use crate::model::skill::TopicOwnershipView;
use vstd::prelude::*;

verus! {

/// A candidate's score as a contribution to the one question asked: who should
/// look at the message. The question is a topic without a name.
pub open spec fn vote(candidate: ExpertCandidateView) -> SkillContributionView {
    SkillContributionView {
        author: candidate.author,
        display_name: candidate.display_name,
        topics: seq![Seq::empty()],
        confidence: candidate.score,
    }
}

/// The votes of the ownerships of the given topics, in order. An ownership of
/// another topic has none.
pub open spec fn votes(
    topics: Seq<Seq<char>>,
    ownerships: Seq<TopicOwnershipView>,
) -> Seq<SkillContributionView>
    decreases ownerships.len(),
{
    if ownerships.len() == 0 {
        Seq::empty()
    } else {
        let before = votes(topics, ownerships.drop_last());
        let last = ownerships.last();
        if topics.contains(last.topic) {
            before + last.candidates.map_values(|c: ExpertCandidateView| vote(c))
        } else {
            before
        }
    }
}

/// Who should look at a message with the given topics, best first.
pub open spec fn reviewers(
    topics: Seq<Seq<char>>,
    ownerships: Seq<TopicOwnershipView>,
) -> Seq<ExpertCandidateView> {
    ownership(votes(topics, ownerships), Seq::empty()).candidates
}

/// The hint: the ranked candidates, and the first of them.
pub open spec fn skill_hint(
    projection: ProjectionView,
    ownerships: Seq<TopicOwnershipView>,
) -> RoutingHintView {
    let ranked = reviewers(projection.topics, ownerships);
    RoutingHintView {
        message_id: projection.message_id,
        reviewers: ranked,
        human_hint: if ranked.len() > 0 {
            Some(ranked[0])
        } else {
            None
        },
    }
}

/// Whether a topic is among those of a projection.
pub(crate) fn has_topic(topics: &Vec<Topic>, topic: &Topic) -> (r: bool)
    ensures
        r == views(topics@).contains(topic@),
{
    let mut i: usize = 0;
    while i < topics.len()
        invariant
            i <= topics@.len(),
            forall|j: int| 0 <= j < i ==> (#[trigger] topics@[j])@ != topic@,
        decreases topics@.len() - i,
    {
        if topics[i].0 == topic.0 {
            assert(views(topics@)[i as int] == topic@);
            return true;
        }
        i = i + 1;
    }
    proof {
        if views(topics@).contains(topic@) {
            let k = choose|k: int| 0 <= k < views(topics@).len() && views(topics@)[k] == topic@;
            assert(topics@[k]@ == topic@);
        }
    }
    false
}

/// Collects the votes.
fn collect_votes(topics: &Vec<Topic>, ownerships: &[TopicOwnership]) -> (r: Vec<SkillContribution>)
    ensures
        views(r@) == votes(views(topics@), views(ownerships@)),
{
    let mut out: Vec<SkillContribution> = Vec::new();
    let ghost wanted = views(topics@);
    let ghost all = views(ownerships@);
    let mut i: usize = 0;
    assert(views(out@) =~= votes(wanted, all.take(0)));
    while i < ownerships.len()
        invariant
            i <= ownerships@.len(),
            wanted == views(topics@),
            all == views(ownerships@),
            views(out@) == votes(wanted, all.take(i as int)),
        decreases ownerships@.len() - i,
    {
        let ownership = &ownerships[i];
        let ghost before = views(out@);
        let ghost cast = ownership@.candidates.map_values(|c: ExpertCandidateView| vote(c));
        proof {
            assert(all.take(i + 1).drop_last() =~= all.take(i as int));
            assert(all.take(i + 1).last() == ownership@);
        }
        if has_topic(topics, &ownership.topic) {
            let mut j: usize = 0;
            assert(views(out@) =~= before + cast.take(0));
            while j < ownership.candidates.len()
                invariant
                    j <= ownership.candidates@.len(),
                    cast == ownership@.candidates.map_values(|c: ExpertCandidateView| vote(c)),
                    views(out@) == before + cast.take(j as int),
                decreases ownership.candidates@.len() - j,
            {
                let candidate = &ownership.candidates[j];
                let score = candidate.score.get();
                let mut question: Vec<Topic> = Vec::new();
                question.push(Topic(String::new()));
                let fresh = SkillContribution {
                    author: candidate.author.clone(),
                    display_name: candidate.display_name.clone(),
                    topics: question,
                    confidence: Confidence::new(score),
                };
                let ghost next = fresh@;
                proof {
                    assert(ownership@.candidates[j as int] == candidate@);
                    assert(next.topics =~= seq![Seq::<char>::empty()]);
                    assert(next == vote(candidate@));
                    assert(cast.take(j + 1) =~= cast.take(j as int).push(next));
                }
                let ghost so_far = out@;
                out.push(fresh);
                assert(views(out@) =~= views(so_far).push(next));
                assert(views(out@) =~= before + cast.take(j + 1));
                j = j + 1;
            }
            assert(cast.take(j as int) =~= cast);
        }
        i = i + 1;
    }
    assert(all.take(i as int) =~= all);
    out
}

/// A deterministic [`RoutingHinter`] over the skill index.
#[derive(Clone, Copy, Debug)]
pub struct SkillRoutingHinter;

impl SkillRoutingHinter {
    /// Creates a skill routing hinter.
    pub fn new() -> (r: Self) {
        SkillRoutingHinter
    }
}

impl Default for SkillRoutingHinter {
    fn default() -> (r: Self) {
        SkillRoutingHinter
    }
}

impl RoutingHinter for SkillRoutingHinter {
    open spec fn hint_spec(
        &self,
        projection: ProjectionView,
        ownerships: Seq<TopicOwnershipView>,
    ) -> RoutingHintView {
        skill_hint(projection, ownerships)
    }

    fn hint(&self, projection: &Projection, ownerships: &[TopicOwnership]) -> (r: RoutingHint) {
        let cast = collect_votes(&projection.topics, ownerships);
        let reviewers = owner_ranking(cast.as_slice(), &String::new());
        let human_hint = if reviewers.len() > 0 {
            Some(reviewers[0].clone())
        } else {
            None
        };
        RoutingHint { message_id: projection.message_id.clone(), reviewers, human_hint }
    }
}

} // verus!
