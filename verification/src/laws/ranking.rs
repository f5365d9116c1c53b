//! Laws of the rankings: who owns a topic, who should look at a message, who took part.

use crate::double::lemma_magnitude_monotone;
use crate::double::lemma_quotient_self;
use crate::double::ordinal;
use crate::double::Double;
use crate::double::ONE_BITS;
use crate::model::skill::DeveloperProfileView;
use crate::model::skill::DeveloperSnapshotView;
use crate::model::skill::ExpertCandidateView;
use crate::model::skill::ParticipantView;
use crate::model::skill::SkillContributionView;
use crate::model::skill::TopicOwnershipView;
use crate::model::skill::TopicWeightView;
use crate::ordered::all_ok;
use crate::ordered::in_order;
use crate::ordered::is_order;
use crate::ordered::lemma_listable;
use crate::ordered::lemma_stable_sorted;
use crate::ordered::listed;
use crate::ordered::lists;
use crate::provider::developer::named_before;
use crate::provider::developer::owned;
use crate::provider::developer::score_of;
use crate::provider::developer::session_developers;
use crate::provider::developer::snapshot;
use crate::provider::developer::weighs_before;
use crate::provider::hint::reviewers;
use crate::provider::hint::vote;
use crate::provider::hint::votes;
use crate::provider::skill::all_topics;
use crate::provider::skill::authors;
use crate::provider::skill::candidate;
use crate::provider::skill::in_range;
use crate::provider::skill::lemma_weight_bounded;
use crate::provider::skill::owners_of;
use crate::provider::skill::ownership;
use crate::provider::skill::ranks_before;
use crate::provider::skill::share;
use crate::provider::skill::skill_index;
use crate::provider::skill::strongest;
use crate::provider::skill::touches;
use crate::provider::skill::weight;
use crate::text::lemma_precedes_irreflexive;
use crate::text::lemma_precedes_total;
use crate::text::lemma_precedes_transitive;
use crate::text::precedes;
use vstd::prelude::*;

verus! {

/// Ranking orders the candidates whose scores are in range.
pub proof fn lemma_ranking_order()
    ensures
        is_order(
            |a: ExpertCandidateView, b: ExpertCandidateView| ranks_before(a, b),
            |c: ExpertCandidateView| c.score.in_unit(),
        ),
{
    let before = |a: ExpertCandidateView, b: ExpertCandidateView| ranks_before(a, b);
    let ok = |c: ExpertCandidateView| c.score.in_unit();
    assert forall|a: ExpertCandidateView| ok(a) implies !#[trigger] before(a, a) by {
        lemma_precedes_irreflexive(a.author);
    }
    assert forall|a: ExpertCandidateView, b: ExpertCandidateView, c: ExpertCandidateView|
        #![trigger before(a, b), before(b, c)]
        ok(a) && ok(b) && ok(c) && before(a, b) && before(b, c) implies before(a, c) by {
        if precedes(a.author, b.author) && precedes(b.author, c.author) {
            lemma_precedes_transitive(a.author, b.author, c.author);
        }
    }
    assert forall|a: ExpertCandidateView, b: ExpertCandidateView, c: ExpertCandidateView|
        ok(a) && ok(b) && ok(c) && #[trigger] before(a, c) implies #[trigger] before(a, b) || before(
        b,
        c,
    ) by {
        lemma_precedes_total(a.author, b.author);
        if precedes(b.author, a.author) && precedes(a.author, c.author) {
            lemma_precedes_transitive(b.author, a.author, c.author);
        }
    }
    assert(is_order(before, ok));
}

/// Everyone who contributed to a topic can be listed.
pub proof fn lemma_owners_listed(p: Seq<SkillContributionView>, topic: Seq<char>)
    ensures
        lists(listed(owners_of(p, topic)), owners_of(p, topic)),
{
    let everyone = p.map_values(|c: SkillContributionView| c.author).to_set();
    vstd::seq_lib::seq_to_set_is_finite(p.map_values(|c: SkillContributionView| c.author));
    assert forall|a: Seq<char>| owners_of(p, topic).contains(a) implies everyone.contains(a) by {
        let i = choose|i: int|
            0 <= i < p.len() && (#[trigger] p[i]).author == a && p[i].topics.contains(topic);
        assert(p.map_values(|c: SkillContributionView| c.author)[i] == a);
    }
    vstd::set_lib::lemma_set_subset_finite(everyone, owners_of(p, topic));
    lemma_listable(owners_of(p, topic));
}

/// A share is in range.
proof fn lemma_share_in_unit(part: Double, whole: Double)
    ensures
        share(part, whole).in_unit(),
{
}

/// The owners of a topic before they are ranked.
pub open spec fn unranked(p: Seq<SkillContributionView>, topic: Seq<char>) -> Seq<ExpertCandidateView> {
    let names = listed(owners_of(p, topic));
    let top = strongest(p, names, topic);
    names.map_values(|a: Seq<char>| candidate(p, a, topic, top))
}

/// Ranking the owners of a topic sorts them and keeps each.
pub proof fn lemma_ownership_sorted(p: Seq<SkillContributionView>, topic: Seq<char>)
    ensures
        in_order(
            ownership(p, topic).candidates,
            |a: ExpertCandidateView, b: ExpertCandidateView| ranks_before(a, b),
        ),
        all_ok(
            ownership(p, topic).candidates,
            |c: ExpertCandidateView| c.score.in_unit(),
        ),
        ownership(p, topic).candidates.len() == unranked(p, topic).len(),
        forall|c: ExpertCandidateView| #[trigger]
            ownership(p, topic).candidates.contains(c) <==> unranked(p, topic).contains(c),
{
    let ok = |c: ExpertCandidateView| c.score.in_unit();
    let plain = unranked(p, topic);
    assert forall|i: int| 0 <= i < plain.len() implies ok(#[trigger] plain[i]) by {
        let names = listed(owners_of(p, topic));
        lemma_share_in_unit(weight(p, names[i], topic), strongest(p, names, topic));
    }
    lemma_ranking_order();
    lemma_stable_sorted(
        plain,
        |a: ExpertCandidateView, b: ExpertCandidateView| ranks_before(a, b),
        ok,
    );
}

/// Candidates come best first, ties by ascending author id, and every score lies
/// in `0.0..=1.0`.
pub proof fn owners_come_best_first(
    p: Seq<SkillContributionView>,
    topic: Seq<char>,
    i: int,
    j: int,
)
    requires
        0 <= i < j < ownership(p, topic).candidates.len(),
    ensures
        ({
            let a = ownership(p, topic).candidates[i];
            let b = ownership(p, topic).candidates[j];
            &&& a.score.in_unit()
            &&& b.score.in_unit()
            &&& ordinal(b.score.bits) <= ordinal(a.score.bits)
            &&& ordinal(a.score.bits) == ordinal(b.score.bits) ==> !precedes(b.author, a.author)
        }),
{
    lemma_ownership_sorted(p, topic);
    let before = |a: ExpertCandidateView, b: ExpertCandidateView| ranks_before(a, b);
    let s = ownership(p, topic).candidates;
    assert(!before(s[j], s[i]));
    let ok = |c: ExpertCandidateView| c.score.in_unit();
    assert(ok(s[i]));
    assert(ok(s[j]));
}

/// Exactly those who contributed to a topic are its candidates.
pub proof fn owners_are_contributors(
    p: Seq<SkillContributionView>,
    topic: Seq<char>,
    author: Seq<char>,
)
    ensures
        (exists|i: int|
            0 <= i < ownership(p, topic).candidates.len() && (
            #[trigger] ownership(p, topic).candidates[i]).author == author) <==> touches(
            p,
            author,
            topic,
        ),
{
    lemma_owners_listed(p, topic);
    lemma_ownership_sorted(p, topic);
    let s = ownership(p, topic).candidates;
    let plain = unranked(p, topic);
    let names = listed(owners_of(p, topic));
    if exists|i: int| 0 <= i < s.len() && (#[trigger] s[i]).author == author {
        let i = choose|i: int| 0 <= i < s.len() && (#[trigger] s[i]).author == author;
        assert(s.contains(s[i]));
        assert(plain.contains(s[i]));
        let k = choose|k: int| 0 <= k < plain.len() && plain[k] == s[i];
        assert(names[k] == author);
        assert(names.contains(author));
        assert(owners_of(p, topic).contains(author));
    }
    if touches(p, author, topic) {
        assert(owners_of(p, topic).contains(author));
        assert(names.contains(author));
        let k = choose|k: int| 0 <= k < names.len() && names[k] == author;
        assert(plain.contains(plain[k]));
        assert(s.contains(plain[k]));
        let i = choose|i: int| 0 <= i < s.len() && s[i] == plain[k];
        assert(s[i].author == author);
    }
}

/// The largest weight is somebody's, and nobody's is larger.
pub proof fn lemma_strongest(p: Seq<SkillContributionView>, names: Seq<Seq<char>>, topic: Seq<char>)
    requires
        in_range(p),
    ensures
        strongest(p, names, topic).is_score_sum(),
        forall|k: int|
            0 <= k < names.len() ==> ordinal(weight(p, #[trigger] names[k], topic).bits) <= ordinal(
                strongest(p, names, topic).bits,
            ),
        ordinal(strongest(p, names, topic).bits) > 0 ==> exists|k: int|
            0 <= k < names.len() && weight(p, #[trigger] names[k], topic) == strongest(
                p,
                names,
                topic,
            ),
    decreases names.len(),
{
    if names.len() > 0 {
        let front = names.drop_last();
        lemma_strongest(p, front, topic);
        lemma_weight_bounded(p, names.last(), topic);
        let all = strongest(p, names, topic);
        assert forall|k: int| 0 <= k < names.len() implies ordinal(
            weight(p, #[trigger] names[k], topic).bits,
        ) <= ordinal(all.bits) by {
            if k < front.len() {
                assert(front[k] == names[k]);
            }
        }
        if ordinal(all.bits) > 0 {
            if all == weight(p, names.last(), topic) {
                assert(names[names.len() - 1] == names.last());
            } else {
                let k = choose|k: int|
                    0 <= k < front.len() && weight(p, #[trigger] front[k], topic) == all;
                assert(names[k] == front[k]);
            }
        }
    }
}

/// The strongest contributor to a topic comes first and scores exactly `1.0`.
pub proof fn best_owner_scores_one(
    p: Seq<SkillContributionView>,
    topic: Seq<char>,
    author: Seq<char>,
)
    requires
        in_range(p),
        touches(p, author, topic),
        ordinal(weight(p, author, topic).bits) > 0,
    ensures
        ownership(p, topic).candidates.len() > 0,
        ownership(p, topic).candidates[0].score == (Double { bits: ONE_BITS }),
{
    let names = listed(owners_of(p, topic));
    let top = strongest(p, names, topic);
    let s = ownership(p, topic).candidates;
    let plain = unranked(p, topic);
    lemma_owners_listed(p, topic);
    lemma_ownership_sorted(p, topic);
    lemma_strongest(p, names, topic);
    assert(names.contains(author));
    let k = choose|k: int| 0 <= k < names.len() && names[k] == author;
    assert(ordinal(weight(p, names[k], topic).bits) <= ordinal(top.bits));
    let m = choose|m: int| 0 <= m < names.len() && weight(p, #[trigger] names[m], topic) == top;
    lemma_magnitude_monotone(0, ordinal(top.bits) as nat);
    lemma_quotient_self(top, top);
    assert(plain[m].score == (Double { bits: ONE_BITS }));
    assert(plain.contains(plain[m]));
    assert(s.contains(plain[m]));
    let n = choose|n: int| 0 <= n < s.len() && s[n] == plain[m];
    if n > 0 {
        owners_come_best_first(p, topic, 0, n);
    }
    assert(s.contains(s[0]));
    assert(plain.contains(s[0]));
}

/// A vote is somebody's candidacy on one of the asked topics.
proof fn lemma_vote_source(
    topics: Seq<Seq<char>>,
    ownerships: Seq<TopicOwnershipView>,
    i: int,
) -> (r: (int, int))
    requires
        0 <= i < votes(topics, ownerships).len(),
    ensures
        0 <= r.0 < ownerships.len(),
        topics.contains(ownerships[r.0].topic),
        0 <= r.1 < ownerships[r.0].candidates.len(),
        votes(topics, ownerships)[i] == vote(ownerships[r.0].candidates[r.1]),
    decreases ownerships.len(),
{
    let front = ownerships.drop_last();
    let last = ownerships.last();
    let before = votes(topics, front);
    if i < before.len() {
        let r = lemma_vote_source(topics, front, i);
        assert(front[r.0] == ownerships[r.0]);
        r
    } else {
        (ownerships.len() - 1, i - before.len())
    }
}

/// Whoever is named is a candidate on one of the projection's own topics: an ownership
/// of another topic never brings one in.
pub proof fn reviewers_own_a_topic(
    topics: Seq<Seq<char>>,
    ownerships: Seq<TopicOwnershipView>,
    i: int,
)
    requires
        0 <= i < reviewers(topics, ownerships).len(),
    ensures
        exists|k: int, c: int|
            0 <= k < ownerships.len() && topics.contains(ownerships[k].topic) && 0 <= c
                < ownerships[k].candidates.len() && (
            #[trigger] ownerships[k].candidates[c]).author == reviewers(topics, ownerships)[i].author,
{
    let p = votes(topics, ownerships);
    let author = reviewers(topics, ownerships)[i].author;
    owners_are_contributors(p, Seq::empty(), author);
    assert(touches(p, author, Seq::empty()));
    let n = choose|n: int|
        0 <= n < p.len() && (#[trigger] p[n]).author == author && p[n].topics.contains(
            Seq::empty(),
        );
    let r = lemma_vote_source(topics, ownerships, n);
    assert(ownerships[r.0].candidates[r.1].author == author);
}

/// Developers come by ascending author id, each participant once, and nobody
/// else.
pub proof fn developers_are_participants(
    conversation: Seq<char>,
    participants: Seq<ParticipantView>,
    ownerships: Seq<TopicOwnershipView>,
)
    ensures
        ({
            let developers = session_developers(conversation, participants, ownerships).developers;
            &&& developers.to_multiset() == participants.map_values(
                |q: ParticipantView| snapshot(q, ownerships),
            ).to_multiset()
            &&& forall|i: int, j: int|
                0 <= i < j < developers.len() ==> !precedes(
                    developers[j].author,
                    developers[i].author,
                )
        }),
{
    let before = |a: DeveloperSnapshotView, b: DeveloperSnapshotView| named_before(a, b);
    let ok = |d: DeveloperSnapshotView| true;
    let plain = participants.map_values(|q: ParticipantView| snapshot(q, ownerships));
    assert forall|a: DeveloperSnapshotView| ok(a) implies !#[trigger] before(a, a) by {
        lemma_precedes_irreflexive(a.author);
    }
    assert forall|a: DeveloperSnapshotView, b: DeveloperSnapshotView, c: DeveloperSnapshotView|
        #![trigger before(a, b), before(b, c)]
        ok(a) && ok(b) && ok(c) && before(a, b) && before(b, c) implies before(a, c) by {
        lemma_precedes_transitive(a.author, b.author, c.author);
    }
    assert forall|a: DeveloperSnapshotView, b: DeveloperSnapshotView, c: DeveloperSnapshotView|
        ok(a) && ok(b) && ok(c) && #[trigger] before(a, c) implies #[trigger] before(a, b) || before(
        b,
        c,
    ) by {
        lemma_precedes_total(a.author, b.author);
        if precedes(b.author, a.author) {
            lemma_precedes_transitive(b.author, a.author, c.author);
        }
    }
    assert(is_order(before, ok));
    lemma_stable_sorted(plain, before, ok);
    let developers = session_developers(conversation, participants, ownerships).developers;
    assert forall|i: int, j: int| 0 <= i < j < developers.len() implies !precedes(
        developers[j].author,
        developers[i].author,
    ) by {
        assert(!before(developers[j], developers[i]));
    }
}

/// A participant who is no candidate on any topic keeps an empty list.
pub proof fn a_stranger_owns_nothing(
    participant: ParticipantView,
    ownerships: Seq<TopicOwnershipView>,
)
    requires
        forall|k: int|
            0 <= k < ownerships.len() ==> score_of(
                (#[trigger] ownerships[k]).candidates,
                participant.author,
            ) is None,
    ensures
        snapshot(participant, ownerships).topics == Seq::<TopicWeightView>::empty(),
{
    lemma_owns_nothing(participant.author, ownerships);
}

proof fn lemma_owns_nothing(author: Seq<char>, ownerships: Seq<TopicOwnershipView>)
    requires
        forall|k: int|
            0 <= k < ownerships.len() ==> score_of((#[trigger] ownerships[k]).candidates, author)
                is None,
    ensures
        owned(author, ownerships) == Seq::<TopicWeightView>::empty(),
    decreases ownerships.len(),
{
    if ownerships.len() > 0 {
        let front = ownerships.drop_last();
        assert forall|k: int| 0 <= k < front.len() implies score_of(
            (#[trigger] front[k]).candidates,
            author,
        ) is None by {
            assert(front[k] == ownerships[k]);
        }
        assert(score_of(ownerships[ownerships.len() - 1].candidates, author) is None);
        lemma_owns_nothing(author, front);
    }
}

/// Votes carry the scores of candidates, so they are in range where those are.
pub proof fn lemma_votes_in_range(topics: Seq<Seq<char>>, ownerships: Seq<TopicOwnershipView>)
    requires
        scores_in_range(ownerships),
    ensures
        in_range(votes(topics, ownerships)),
{
    let p = votes(topics, ownerships);
    assert forall|i: int| 0 <= i < p.len() implies (#[trigger] p[i]).confidence.in_unit() by {
        let r = lemma_vote_source(topics, ownerships, i);
        assert(ownerships[r.0].candidates[r.1].score.in_unit());
    }
}

/// Whether every candidate's score lies in `0.0..=1.0`, as it does in every value
/// of the type.
pub open spec fn scores_in_range(ownerships: Seq<TopicOwnershipView>) -> bool {
    forall|k: int, c: int|
        0 <= k < ownerships.len() && 0 <= c < ownerships[k].candidates.len() ==> (
        #[trigger] ownerships[k].candidates[c]).score.in_unit()
}

/// Where somebody's scores on the asked topics sum to more than nothing, the first
/// named scores exactly `1.0`.
pub proof fn best_reviewer_scores_one(
    topics: Seq<Seq<char>>,
    ownerships: Seq<TopicOwnershipView>,
    author: Seq<char>,
)
    requires
        scores_in_range(ownerships),
        touches(votes(topics, ownerships), author, Seq::empty()),
        ordinal(weight(votes(topics, ownerships), author, Seq::empty()).bits) > 0,
    ensures
        reviewers(topics, ownerships).len() > 0,
        reviewers(topics, ownerships)[0].score == (Double { bits: ONE_BITS }),
{
    lemma_votes_in_range(topics, ownerships);
    best_owner_scores_one(votes(topics, ownerships), Seq::empty(), author);
}

proof fn lemma_score_of_in_range(candidates: Seq<ExpertCandidateView>, author: Seq<char>)
    requires
        forall|c: int| 0 <= c < candidates.len() ==> (#[trigger] candidates[c]).score.in_unit(),
    ensures
        score_of(candidates, author) matches Some(score) ==> score.in_unit(),
    decreases candidates.len(),
{
    if candidates.len() > 0 {
        let rest = candidates.drop_first();
        assert(candidates[0].score.in_unit());
        assert forall|c: int| 0 <= c < rest.len() implies (#[trigger] rest[c]).score.in_unit() by {
            assert(rest[c] == candidates[c + 1]);
        }
        lemma_score_of_in_range(rest, author);
    }
}

proof fn lemma_owned_in_range(author: Seq<char>, ownerships: Seq<TopicOwnershipView>)
    requires
        scores_in_range(ownerships),
    ensures
        all_ok(owned(author, ownerships), |t: TopicWeightView| t.weight.in_unit()),
    decreases ownerships.len(),
{
    let ok = |t: TopicWeightView| t.weight.in_unit();
    if ownerships.len() > 0 {
        let front = ownerships.drop_last();
        let last = ownerships.last();
        assert(scores_in_range(front)) by {
            assert forall|k: int, c: int|
                0 <= k < front.len() && 0 <= c < front[k].candidates.len() implies (
            #[trigger] front[k].candidates[c]).score.in_unit() by {
                assert(ownerships[k].candidates[c].score.in_unit());
            }
        }
        lemma_owned_in_range(author, front);
        assert forall|c: int| 0 <= c < last.candidates.len() implies (
        #[trigger] last.candidates[c]).score.in_unit() by {
            assert(ownerships[ownerships.len() - 1].candidates[c].score.in_unit());
        }
        lemma_score_of_in_range(last.candidates, author);
        let all = owned(author, ownerships);
        assert forall|i: int| 0 <= i < all.len() implies ok(#[trigger] all[i]) by {
            if i < owned(author, front).len() {
                assert(ok(owned(author, front)[i]));
            }
        }
    }
}

/// A participant's topics come best first, ties by ascending topic.
pub proof fn topics_come_best_first(
    participant: ParticipantView,
    ownerships: Seq<TopicOwnershipView>,
    i: int,
    j: int,
)
    requires
        scores_in_range(ownerships),
        0 <= i < j < snapshot(participant, ownerships).topics.len(),
    ensures
        ({
            let a = snapshot(participant, ownerships).topics[i];
            let b = snapshot(participant, ownerships).topics[j];
            &&& ordinal(b.weight.bits) <= ordinal(a.weight.bits)
            &&& ordinal(a.weight.bits) == ordinal(b.weight.bits) ==> !precedes(b.topic, a.topic)
        }),
{
    let before = |a: TopicWeightView, b: TopicWeightView| weighs_before(a, b);
    let ok = |t: TopicWeightView| t.weight.in_unit();
    let plain = owned(participant.author, ownerships);
    lemma_owned_in_range(participant.author, ownerships);
    assert forall|a: TopicWeightView| ok(a) implies !#[trigger] before(a, a) by {
        lemma_precedes_irreflexive(a.topic);
    }
    assert forall|a: TopicWeightView, b: TopicWeightView, c: TopicWeightView|
        #![trigger before(a, b), before(b, c)]
        ok(a) && ok(b) && ok(c) && before(a, b) && before(b, c) implies before(a, c) by {
        if precedes(a.topic, b.topic) && precedes(b.topic, c.topic) {
            lemma_precedes_transitive(a.topic, b.topic, c.topic);
        }
    }
    assert forall|a: TopicWeightView, b: TopicWeightView, c: TopicWeightView|
        ok(a) && ok(b) && ok(c) && #[trigger] before(a, c) implies #[trigger] before(a, b) || before(
        b,
        c,
    ) by {
        lemma_precedes_total(a.topic, b.topic);
        if precedes(b.topic, a.topic) && precedes(a.topic, c.topic) {
            lemma_precedes_transitive(b.topic, a.topic, c.topic);
        }
    }
    assert(is_order(before, ok));
    lemma_stable_sorted(plain, before, ok);
    let s = snapshot(participant, ownerships).topics;
    assert(!before(s[j], s[i]));
    assert(ok(s[i]));
    assert(ok(s[j]));
}

/// Profiles come by ascending author, one for each who contributed, and
/// ownerships by ascending topic, one for each that somebody contributed to.
pub proof fn the_index_is_in_order(p: Seq<SkillContributionView>)
    ensures
        lists(
            skill_index(p).profiles.map_values(|d: DeveloperProfileView| d.author),
            authors(p),
        ),
        lists(
            skill_index(p).ownerships.map_values(|o: TopicOwnershipView| o.topic),
            all_topics(p),
        ),
{
    let names = p.map_values(|c: SkillContributionView| c.author);
    vstd::seq_lib::seq_to_set_is_finite(names);
    assert forall|a: Seq<char>| authors(p).contains(a) implies names.to_set().contains(a) by {
        let i = choose|i: int| 0 <= i < p.len() && (#[trigger] p[i]).author == a;
        assert(names[i] == a);
    }
    vstd::set_lib::lemma_set_subset_finite(names.to_set(), authors(p));
    lemma_listable(authors(p));
    assert(skill_index(p).profiles.map_values(|d: DeveloperProfileView| d.author) =~= listed(
        authors(p),
    ));
    lemma_topics_finite(p);
    lemma_listable(all_topics(p));
    assert(skill_index(p).ownerships.map_values(|o: TopicOwnershipView| o.topic) =~= listed(
        all_topics(p),
    ));
}

proof fn lemma_topics_finite(p: Seq<SkillContributionView>)
    ensures
        all_topics(p).finite(),
    decreases p.len(),
{
    if p.len() == 0 {
        assert(all_topics(p) =~= Set::empty());
    } else {
        let front = p.drop_last();
        let last = p.last();
        lemma_topics_finite(front);
        vstd::seq_lib::seq_to_set_is_finite(last.topics);
        let wider = all_topics(front).union(last.topics.to_set());
        assert forall|t: Seq<char>| all_topics(p).contains(t) implies wider.contains(t) by {
            let a = choose|a: Seq<char>| touches(p, a, t);
            let i = choose|i: int|
                0 <= i < p.len() && (#[trigger] p[i]).author == a && p[i].topics.contains(t);
            if i < front.len() {
                assert(front[i] == p[i]);
                assert(touches(front, a, t));
            }
        }
        vstd::set_lib::lemma_set_subset_finite(wider, all_topics(p));
    }
}

} // verus!
