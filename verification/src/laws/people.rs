//! Laws of people: who is named for a message, and what a session shows of those
//! who took part.

use super::expertise::a_score_is_a_share_of_the_largest_sum;
use super::expertise::amounts_on;
use super::expertise::brought;
use super::expertise::candidates_are_who_contributed;
use super::expertise::contributed;
use super::expertise::is_largest;
use super::expertise::is_share;
use super::expertise::same_text;
use super::ranking::lemma_votes_in_range;
use super::ranking::owners_are_contributors;
use super::ranking::owners_come_best_first;
use super::ranking::reviewers_own_a_topic;
use super::ranking::scores_in_range;
use crate::double::lemma_magnitude_monotone;
use crate::double::lemma_nearest;
use crate::double::lemma_one;
use crate::double::lemma_rounding_exact;
use crate::double::lemma_rounding_unique;
use crate::double::magnitude;
use crate::double::one_unit;
use crate::double::ordinal;
use crate::double::total;
use crate::double::Double;
use crate::double::ONE_BITS;
use crate::model::projection::ProjectionView;
use crate::model::projector::DeveloperSnapshotBuilder;
use crate::model::projector::RoutingHinter;
use crate::model::skill::DeveloperSnapshotView;
use crate::model::skill::ExpertCandidateView;
use crate::model::skill::ParticipantView;
use crate::model::skill::SkillContributionView;
use crate::model::skill::TopicOwnershipView;
use crate::model::skill::TopicWeightView;
use crate::ordered::insert_sorted;
use crate::ordered::stable_sorted;
use crate::provider::developer::named_before;
use crate::provider::developer::owned;
use crate::provider::developer::score_of;
use crate::provider::developer::session_developers;
use crate::provider::developer::snapshot;
use crate::provider::developer::weighs_before;
use crate::provider::developer::SkillDeveloperSnapshotter;
use crate::provider::hint::reviewers;
use crate::provider::hint::vote;
use crate::provider::hint::votes;
use crate::provider::hint::SkillRoutingHinter;
use crate::provider::skill::ownership;
use crate::provider::skill::touches;
use crate::text::precedes;
use vstd::prelude::*;

verus! {

/// The test for an author's candidacies.
pub open spec fn by_author(author: Seq<char>) -> spec_fn(ExpertCandidateView) -> bool {
    |c: ExpertCandidateView| c.author == author
}

/// An author's scores among candidates, in order.
pub open spec fn scores_among(candidates: Seq<ExpertCandidateView>, author: Seq<char>) -> Seq<
    Double,
> {
    candidates.filter(by_author(author)).map_values(|c: ExpertCandidateView| c.score)
}

/// An author's scores over the ownerships of the given topics, in order.
pub open spec fn scores_on(
    topics: Seq<Seq<char>>,
    ownerships: Seq<TopicOwnershipView>,
    author: Seq<char>,
) -> Seq<Double>
    decreases ownerships.len(),
{
    if ownerships.len() == 0 {
        Seq::empty()
    } else {
        scores_on(topics, ownerships.drop_last(), author) + if topics.contains(
            ownerships.last().topic,
        ) {
            scores_among(ownerships.last().candidates, author)
        } else {
            Seq::empty()
        }
    }
}

/// Everyone's summed scores over the ownerships of the given topics.
pub open spec fn sums_on(topics: Seq<Seq<char>>, ownerships: Seq<TopicOwnershipView>) -> spec_fn(
    Seq<char>,
) -> Double {
    |a: Seq<char>| total(scores_on(topics, ownerships, a))
}

proof fn lemma_contributed_add(
    p: Seq<SkillContributionView>,
    q: Seq<SkillContributionView>,
    author: Seq<char>,
    topic: Seq<char>,
)
    ensures
        contributed(p + q, author, topic) == contributed(p, author, topic) + contributed(
            q,
            author,
            topic,
        ),
    decreases q.len(),
{
    if q.len() == 0 {
        assert(p + q =~= p);
        assert(contributed(p, author, topic) + Seq::<Double>::empty() =~= contributed(
            p,
            author,
            topic,
        ));
    } else {
        lemma_contributed_add(p, q.drop_last(), author, topic);
        assert((p + q).drop_last() =~= p + q.drop_last());
        assert(contributed(p, author, topic) + (contributed(q.drop_last(), author, topic) + brought(
            q.last(),
            author,
            topic,
        )) =~= contributed(p, author, topic) + contributed(q.drop_last(), author, topic) + brought(
            q.last(),
            author,
            topic,
        ));
    }
}

proof fn lemma_voted(candidates: Seq<ExpertCandidateView>, author: Seq<char>)
    ensures
        contributed(
            candidates.map_values(|c: ExpertCandidateView| vote(c)),
            author,
            Seq::empty(),
        ) == scores_among(candidates, author),
    decreases candidates.len(),
{
    reveal(Seq::filter);
    let all = candidates.map_values(|c: ExpertCandidateView| vote(c));
    if candidates.len() == 0 {
        assert(scores_among(candidates, author) =~= Seq::<Double>::empty());
    } else {
        let front = candidates.drop_last();
        let last = candidates.last();
        lemma_voted(front, author);
        assert(all.drop_last() =~= front.map_values(|c: ExpertCandidateView| vote(c)));
        assert(all.last() == vote(last));
        let marks = vote(last).topics;
        assert(marks.drop_last() =~= Seq::<Seq<char>>::empty());
        assert(marks.drop_last().filter(same_text(Seq::empty())) =~= Seq::<Seq<char>>::empty());
        assert(marks.filter(same_text(Seq::empty())).len() == 1);
        let now = brought(vote(last), author, Seq::empty());
        if last.author == author {
            assert(now =~= seq![last.score]);
            assert(scores_among(candidates, author) =~= scores_among(front, author).push(
                last.score,
            ));
        } else {
            assert(now =~= Seq::<Double>::empty());
            assert(scores_among(candidates, author) =~= scores_among(front, author));
        }
        assert(scores_among(front, author) + now =~= scores_among(candidates, author));
    }
}

proof fn lemma_votes_cast(
    topics: Seq<Seq<char>>,
    ownerships: Seq<TopicOwnershipView>,
    author: Seq<char>,
)
    ensures
        contributed(votes(topics, ownerships), author, Seq::empty()) == scores_on(
            topics,
            ownerships,
            author,
        ),
    decreases ownerships.len(),
{
    if ownerships.len() > 0 {
        let front = ownerships.drop_last();
        let last = ownerships.last();
        lemma_votes_cast(topics, front, author);
        if topics.contains(last.topic) {
            let fresh = last.candidates.map_values(|c: ExpertCandidateView| vote(c));
            lemma_contributed_add(votes(topics, front), fresh, author, Seq::empty());
            lemma_voted(last.candidates, author);
        } else {
            assert(scores_on(topics, front, author) + Seq::<Double>::empty() =~= scores_on(
                topics,
                front,
                author,
            ));
        }
    }
}

/// The score of whoever is named is the sum of their candidate scores over the ownerships of the
/// projection's topics, as a share of the largest such sum.
pub proof fn a_reviewer_scores_their_sum(
    projection: ProjectionView,
    ownerships: Seq<TopicOwnershipView>,
    r: int,
) -> (largest: Double)
    requires
        scores_in_range(ownerships),
        0 <= r < SkillRoutingHinter.hint_spec(projection, ownerships).reviewers.len(),
    ensures
        ({
            let named = SkillRoutingHinter.hint_spec(projection, ownerships).reviewers;
            &&& is_largest(sums_on(projection.topics, ownerships), named, largest)
            &&& forall|d: int|
                0 <= d < named.len() ==> is_share(
                    (#[trigger] named[d]).score,
                    total(scores_on(projection.topics, ownerships, named[d].author)),
                    largest,
                )
        }),
{
    let p = votes(projection.topics, ownerships);
    let named = SkillRoutingHinter.hint_spec(projection, ownerships).reviewers;
    lemma_votes_in_range(projection.topics, ownerships);
    let top = a_score_is_a_share_of_the_largest_sum(p, Seq::empty(), r);
    let cast = amounts_on(p, Seq::empty());
    let sums = sums_on(projection.topics, ownerships);
    assert forall|a: Seq<char>| #[trigger] cast(a) == sums(a) by {
        lemma_votes_cast(projection.topics, ownerships, a);
    }
    let d = choose|d: int|
        0 <= d < named.len() && cast((#[trigger] named[d]).author).value() == top.value();
    assert(sums(named[d].author).value() == top.value());
    assert forall|d: int| 0 <= d < named.len() implies is_share(
        (#[trigger] named[d]).score,
        total(scores_on(projection.topics, ownerships, named[d].author)),
        top,
    ) && sums(named[d].author).value() <= top.value() by {
        lemma_votes_cast(projection.topics, ownerships, named[d].author);
        assert(cast(named[d].author) == sums(named[d].author));
    }
    top
}

/// Whoever is named is a candidate of an ownership of the projection's topics, and
/// every such candidate is named.
pub proof fn reviewers_are_candidates(
    projection: ProjectionView,
    ownerships: Seq<TopicOwnershipView>,
    author: Seq<char>,
)
    ensures
        (exists|r: int|
            0 <= r < SkillRoutingHinter.hint_spec(projection, ownerships).reviewers.len() && (
            #[trigger] SkillRoutingHinter.hint_spec(projection, ownerships).reviewers[r]).author
                == author) <==> exists|k: int, c: int|
            0 <= k < ownerships.len() && projection.topics.contains(ownerships[k].topic) && 0 <= c
                < ownerships[k].candidates.len() && (#[trigger] ownerships[k].candidates[c]).author
                == author,
{
    let topics = projection.topics;
    let p = votes(topics, ownerships);
    let named = SkillRoutingHinter.hint_spec(projection, ownerships).reviewers;
    assert(named == reviewers(topics, ownerships));
    owners_are_contributors(p, Seq::empty(), author);
    if exists|r: int| 0 <= r < named.len() && (#[trigger] named[r]).author == author {
        let r = choose|r: int| 0 <= r < named.len() && (#[trigger] named[r]).author == author;
        reviewers_own_a_topic(topics, ownerships, r);
    }
    if exists|k: int, c: int|
        0 <= k < ownerships.len() && topics.contains(ownerships[k].topic) && 0 <= c
            < ownerships[k].candidates.len() && (#[trigger] ownerships[k].candidates[c]).author
            == author {
        let (k, c) = choose|k: int, c: int|
            0 <= k < ownerships.len() && topics.contains(ownerships[k].topic) && 0 <= c
                < ownerships[k].candidates.len() && (#[trigger] ownerships[k].candidates[c]).author
                == author;
        let i = lemma_vote_of(topics, ownerships, k, c);
        assert(p[i].topics[0] == Seq::<char>::empty());
        assert(p[i].topics.contains(Seq::empty()));
        assert(touches(p, author, Seq::empty()));
    }
}

/// Nobody is named twice, and whoever is named earlier scores at least as much, ties
/// going by ascending id.
pub proof fn reviewers_come_best_first(
    projection: ProjectionView,
    ownerships: Seq<TopicOwnershipView>,
    r: int,
    q: int,
)
    requires
        0 <= r < q < SkillRoutingHinter.hint_spec(projection, ownerships).reviewers.len(),
    ensures
        ({
            let named = SkillRoutingHinter.hint_spec(projection, ownerships).reviewers;
            &&& named[r].author != named[q].author
            &&& named[q].score.in_unit()
            &&& ordinal(named[q].score.bits) <= ordinal(named[r].score.bits)
            &&& ordinal(named[q].score.bits) == ordinal(named[r].score.bits) ==> !precedes(
                named[q].author,
                named[r].author,
            )
        }),
{
    let p = votes(projection.topics, ownerships);
    let named = SkillRoutingHinter.hint_spec(projection, ownerships).reviewers;
    assert(named == ownership(p, Seq::empty()).candidates);
    owners_come_best_first(p, Seq::empty(), r, q);
    candidates_are_who_contributed(p, Seq::empty(), named[r].author);
}

/// A hint is about the projection's message, and its human hint is the first named.
pub proof fn the_first_reviewer_is_the_human_hint(
    projection: ProjectionView,
    ownerships: Seq<TopicOwnershipView>,
)
    ensures
        ({
            let hint = SkillRoutingHinter.hint_spec(projection, ownerships);
            &&& hint.message_id == projection.message_id
            &&& hint.human_hint is Some <==> hint.reviewers.len() > 0
            &&& hint.reviewers.len() > 0 ==> hint.human_hint == Some(hint.reviewers[0])
        }),
{
}

/// Each candidacy on one of the asked topics is a vote.
proof fn lemma_vote_of(
    topics: Seq<Seq<char>>,
    ownerships: Seq<TopicOwnershipView>,
    k: int,
    c: int,
) -> (i: int)
    requires
        0 <= k < ownerships.len(),
        topics.contains(ownerships[k].topic),
        0 <= c < ownerships[k].candidates.len(),
    ensures
        0 <= i < votes(topics, ownerships).len(),
        votes(topics, ownerships)[i] == vote(ownerships[k].candidates[c]),
    decreases ownerships.len(),
{
    let front = ownerships.drop_last();
    if k < front.len() {
        let i = lemma_vote_of(topics, front, k, c);
        assert(votes(topics, ownerships)[i] == votes(topics, front)[i]);
        i
    } else {
        votes(topics, front).len() + c
    }
}

/// An ownership of a topic that the projection does not have changes nothing.
pub proof fn other_topics_do_not_count(
    projection: ProjectionView,
    ownerships: Seq<TopicOwnershipView>,
    other: TopicOwnershipView,
)
    requires
        !projection.topics.contains(other.topic),
    ensures
        SkillRoutingHinter.hint_spec(projection, ownerships.push(other))
            == SkillRoutingHinter.hint_spec(projection, ownerships),
{
    assert(ownerships.push(other).drop_last() =~= ownerships);
}

/// Whoever is named goes by the name of their last candidacy on the projection's topics: a
/// further ownership names its candidates anew, and leaves the names of others.
pub proof fn a_reviewer_goes_by_their_last_name(
    projection: ProjectionView,
    ownerships: Seq<TopicOwnershipView>,
    more: TopicOwnershipView,
    c: int,
    r: int,
    q: int,
)
    requires
        projection.topics.contains(more.topic),
        0 <= r < SkillRoutingHinter.hint_spec(projection, ownerships.push(more)).reviewers.len(),
    ensures
        ({
            let now = SkillRoutingHinter.hint_spec(projection, ownerships.push(more)).reviewers;
            let then = SkillRoutingHinter.hint_spec(projection, ownerships).reviewers;
            &&& 0 <= c < more.candidates.len() && more.candidates[c].author == now[r].author && (
            forall|d: int|
                c < d < more.candidates.len() ==> (#[trigger] more.candidates[d]).author
                    != now[r].author) ==> now[r].display_name == more.candidates[c].display_name
            &&& 0 <= q < then.len() && then[q].author == now[r].author && (forall|d: int|
                0 <= d < more.candidates.len() ==> (#[trigger] more.candidates[d]).author
                    != now[r].author) ==> now[r].display_name == then[q].display_name
        }),
{
    let topics = projection.topics;
    let all = ownerships.push(more);
    assert(all.drop_last() =~= ownerships);
    let p = votes(topics, ownerships);
    let fresh = more.candidates.map_values(|c: ExpertCandidateView| vote(c));
    let w = votes(topics, all);
    assert(w == p + fresh);
    let now = SkillRoutingHinter.hint_spec(projection, all).reviewers;
    let then = SkillRoutingHinter.hint_spec(projection, ownerships).reviewers;
    let author = now[r].author;
    candidates_are_who_contributed(w, Seq::empty(), author);
    candidates_are_who_contributed(p, Seq::empty(), author);
    assert(now == ownership(w, Seq::empty()).candidates);
    assert(then == ownership(p, Seq::empty()).candidates);
    if 0 <= c < more.candidates.len() && more.candidates[c].author == author && (forall|d: int|
        c < d < more.candidates.len() ==> (#[trigger] more.candidates[d]).author != author) {
        let i = p.len() + c;
        assert(w[i] == vote(more.candidates[c]));
        assert forall|j: int| i < j < w.len() implies (#[trigger] w[j]).author != author by {
            assert(w[j] == vote(more.candidates[j - p.len()]));
        }
    }
    if 0 <= q < then.len() && then[q].author == author && (forall|d: int|
        0 <= d < more.candidates.len() ==> (#[trigger] more.candidates[d]).author != author) {
        let k = choose|k: int|
            0 <= k < p.len() && (#[trigger] p[k]).author == author && p[k].topics.contains(
                Seq::empty(),
            );
        let i = lemma_last_of(p, author, k);
        assert(then[q].display_name == p[i].display_name);
        assert(w[i] == p[i]);
        assert forall|j: int| i < j < w.len() implies (#[trigger] w[j]).author != author by {
            if j < p.len() {
                assert(w[j] == p[j]);
            } else {
                assert(w[j] == vote(more.candidates[j - p.len()]));
            }
        }
        assert(now[r].display_name == w[i].display_name);
    }
}

proof fn lemma_last_of(p: Seq<SkillContributionView>, author: Seq<char>, k: int) -> (i: int)
    requires
        0 <= k < p.len(),
        p[k].author == author,
    ensures
        0 <= i < p.len(),
        p[i].author == author,
        forall|j: int| i < j < p.len() ==> (#[trigger] p[j]).author != author,
    decreases p.len() - k,
{
    if exists|j: int| k < j < p.len() && (#[trigger] p[j]).author == author {
        let j = choose|j: int| k < j < p.len() && (#[trigger] p[j]).author == author;
        lemma_last_of(p, author, j)
    } else {
        k
    }
}

proof fn lemma_one_score(candidates: Seq<ExpertCandidateView>, c: int)
    requires
        0 <= c < candidates.len(),
        forall|d: int|
            0 <= d < candidates.len() && d != c ==> (#[trigger] candidates[d]).author
                != candidates[c].author,
    ensures
        scores_among(candidates, candidates[c].author) == seq![candidates[c].score],
    decreases candidates.len(),
{
    reveal(Seq::filter);
    let author = candidates[c].author;
    let front = candidates.drop_last();
    let kept = front.filter(by_author(author));
    if c < front.len() {
        assert forall|d: int| 0 <= d < front.len() && d != c implies (#[trigger] front[d]).author
            != front[c].author by {
            assert(front[d] == candidates[d]);
        }
        lemma_one_score(front, c);
        assert(candidates[candidates.len() - 1].author != author);
        assert(candidates.filter(by_author(author)) == kept);
    } else {
        lemma_no_score(front, author);
        assert(candidates.filter(by_author(author)) =~= seq![candidates[c]]);
    }
    assert(scores_among(candidates, author) =~= seq![candidates[c].score]);
}

proof fn lemma_no_score(candidates: Seq<ExpertCandidateView>, author: Seq<char>)
    requires
        forall|d: int|
            0 <= d < candidates.len() ==> (#[trigger] candidates[d]).author != author,
    ensures
        candidates.filter(by_author(author)).len() == 0,
    decreases candidates.len(),
{
    reveal(Seq::filter);
    if candidates.len() > 0 {
        let front = candidates.drop_last();
        assert forall|d: int| 0 <= d < front.len() implies (#[trigger] front[d]).author
            != author by {
            assert(front[d] == candidates[d]);
        }
        lemma_no_score(front, author);
        assert(candidates[candidates.len() - 1].author != author);
    }
}

/// A single score sums to itself.
proof fn lemma_total_of_one(score: Double)
    requires
        score.in_unit(),
    ensures
        total(seq![score]).value() == score.value(),
{
    let s = seq![score];
    assert(s.drop_last() =~= Seq::<Double>::empty());
    let bits = ordinal(score.bits) as nat;
    lemma_rounding_exact(1, bits);
    assert(1 * magnitude(bits) == magnitude(bits));
    lemma_nearest(magnitude(bits), 1, bits);
    assert(total(Seq::<Double>::empty()) == (Double { bits: 0 }));
    assert(magnitude(0) == 0);
    assert((Double { bits: 0 }).value() == 0);
    assert(total(s) == (Double { bits: 0 }).sum_spec(score));
    assert(total(s).bits == bits);
}

/// On a single topic whose best candidate scores `1.0`, as an index gives it, each
/// who is named has the score they are a candidate with, and the higher score comes
/// first.
pub proof fn one_topic_keeps_its_ranking(
    projection: ProjectionView,
    ownership: TopicOwnershipView,
    best: int,
    c: int,
    r: int,
)
    requires
        scores_in_range(seq![ownership]),
        projection.topics.contains(ownership.topic),
        forall|i: int, j: int|
            0 <= i < ownership.candidates.len() && 0 <= j < ownership.candidates.len() && i != j
                ==> (#[trigger] ownership.candidates[i]).author != (
            #[trigger] ownership.candidates[j]).author,
        0 <= best < ownership.candidates.len(),
        ownership.candidates[best].score.bits == ONE_BITS,
        0 <= c < ownership.candidates.len(),
        0 <= r < SkillRoutingHinter.hint_spec(projection, seq![ownership]).reviewers.len(),
        SkillRoutingHinter.hint_spec(projection, seq![ownership]).reviewers[r].author
            == ownership.candidates[c].author,
    ensures
        ({
            let named = SkillRoutingHinter.hint_spec(projection, seq![ownership]).reviewers;
            &&& named[r].score.value() == ownership.candidates[c].score.value()
            &&& forall|q: int, d: int|
                #![trigger named[q], ownership.candidates[d]]
                0 <= q < named.len() && 0 <= d < ownership.candidates.len() && named[q].author
                    == ownership.candidates[d].author && ordinal(
                    ownership.candidates[c].score.bits,
                ) > ordinal(ownership.candidates[d].score.bits) ==> r < q
        }),
{
    let one = seq![ownership];
    let named = SkillRoutingHinter.hint_spec(projection, one).reviewers;
    lemma_single(projection, ownership, best, c, r);
    assert forall|q: int, d: int|
        #![trigger named[q], ownership.candidates[d]]
        0 <= q < named.len() && 0 <= d < ownership.candidates.len() && named[q].author
            == ownership.candidates[d].author && ordinal(ownership.candidates[c].score.bits)
            > ordinal(ownership.candidates[d].score.bits) implies r < q by {
        lemma_single(projection, ownership, best, d, q);
        assert(ownership.candidates[c].author != ownership.candidates[d].author);
        assert(one[0].candidates[c].score.in_unit());
        if q < r {
            reviewers_come_best_first(projection, one, q, r);
        }
    }
}

proof fn lemma_single(
    projection: ProjectionView,
    ownership: TopicOwnershipView,
    best: int,
    c: int,
    r: int,
)
    requires
        scores_in_range(seq![ownership]),
        projection.topics.contains(ownership.topic),
        forall|i: int, j: int|
            0 <= i < ownership.candidates.len() && 0 <= j < ownership.candidates.len() && i != j
                ==> (#[trigger] ownership.candidates[i]).author != (
            #[trigger] ownership.candidates[j]).author,
        0 <= best < ownership.candidates.len(),
        ownership.candidates[best].score.bits == ONE_BITS,
        0 <= c < ownership.candidates.len(),
        0 <= r < SkillRoutingHinter.hint_spec(projection, seq![ownership]).reviewers.len(),
        SkillRoutingHinter.hint_spec(projection, seq![ownership]).reviewers[r].author
            == ownership.candidates[c].author,
    ensures
        SkillRoutingHinter.hint_spec(projection, seq![ownership]).reviewers[r].score.bits as int
            == ordinal(ownership.candidates[c].score.bits),
{
    let one = seq![ownership];
    let topics = projection.topics;
    let named = SkillRoutingHinter.hint_spec(projection, one).reviewers;
    let sums = sums_on(topics, one);
    let all = ownership.candidates;
    assert(one.drop_last() =~= Seq::<TopicOwnershipView>::empty());
    assert(one.last() == ownership);
    assert forall|a: Seq<char>| #[trigger] scores_on(topics, one, a) == scores_among(all, a) by {
        assert(scores_on(topics, one.drop_last(), a) =~= Seq::<Double>::empty());
        assert(Seq::<Double>::empty() + scores_among(all, a) =~= scores_among(all, a));
    }
    let top = a_reviewer_scores_their_sum(projection, one, r);
    assert forall|d: int| 0 <= d < all.len() implies sums((#[trigger] all[d]).author).value()
        == all[d].score.value() by {
        assert(one[0].candidates[d].score.in_unit());
        lemma_one_score(all, d);
        lemma_total_of_one(all[d].score);
        assert(scores_on(topics, one, all[d].author) == seq![all[d].score]);
    }
    assert(one[0].candidates[best].author == all[best].author);
    reviewers_are_candidates(projection, one, all[best].author);
    let b = choose|b: int| 0 <= b < named.len() && (#[trigger] named[b]).author == all[best].author;
    lemma_one();
    assert(sums(named[b].author).value() <= top.value());
    assert(sums(all[best].author).value() == one_unit());
    let x = choose|x: int|
        0 <= x < named.len() && sums((#[trigger] named[x]).author).value() == top.value();
    reviewers_are_candidates(projection, one, named[x].author);
    let (k, y) = choose|k: int, y: int|
        0 <= k < one.len() && topics.contains(one[k].topic) && 0 <= y < one[k].candidates.len() && (
        #[trigger] one[k].candidates[y]).author == named[x].author;
    assert(all[y].author == named[x].author);
    assert(one[0].candidates[y].score.in_unit());
    assert(sums(all[y].author).value() == all[y].score.value());
    if ordinal(all[y].score.bits) < ONE_BITS {
        lemma_magnitude_monotone(ordinal(all[y].score.bits) as nat, ONE_BITS as nat);
    }
    assert(top.value() == one_unit());
    assert(is_share(named[r].score, total(scores_on(topics, one, named[r].author)), top));
    assert(sums(all[c].author).value() == all[c].score.value());
    assert(one[0].candidates[c].score.in_unit());
    let bits = ordinal(all[c].score.bits) as nat;
    let num = all[c].score.value() * one_unit();
    lemma_rounding_exact(one_unit(), bits);
    assert(one_unit() * magnitude(bits) == num) by (nonlinear_arith)
        requires
            num == magnitude(bits) * one_unit(),
    ;
    lemma_rounding_unique(num, one_unit(), named[r].score.bits as nat, bits);
}

/// Sorting keeps the items, each as often as it was there.
proof fn lemma_insert_items<T>(s: Seq<T>, x: T, before: spec_fn(T, T) -> bool)
    ensures
        insert_sorted(s, x, before).to_multiset() == s.to_multiset().insert(x),
    decreases s.len(),
{
    broadcast use vstd::seq_lib::group_to_multiset_ensures;

    if s.len() == 0 {
        assert(seq![x] =~= Seq::<T>::empty().push(x));
        assert(s =~= Seq::<T>::empty());
    } else if before(x, s.last()) {
        lemma_insert_items(s.drop_last(), x, before);
        assert(s =~= s.drop_last().push(s.last()));
        assert(s.to_multiset().insert(x) =~= s.drop_last().to_multiset().insert(x).insert(s.last()));
    }
}

proof fn lemma_sorted_items<T>(s: Seq<T>, before: spec_fn(T, T) -> bool)
    ensures
        stable_sorted(s, before).to_multiset() == s.to_multiset(),
    decreases s.len(),
{
    broadcast use vstd::seq_lib::group_to_multiset_ensures;

    if s.len() > 0 {
        lemma_sorted_items(s.drop_last(), before);
        lemma_insert_items(stable_sorted(s.drop_last(), before), s.last(), before);
        assert(s =~= s.drop_last().push(s.last()));
    } else {
        assert(s =~= Seq::<T>::empty());
    }
}

/// An author's place among candidates: the first that is theirs.
pub open spec fn is_first_of(
    candidates: Seq<ExpertCandidateView>,
    author: Seq<char>,
    c: int,
) -> bool {
    &&& 0 <= c < candidates.len()
    &&& candidates[c].author == author
    &&& forall|d: int| 0 <= d < c ==> (#[trigger] candidates[d]).author != author
}

proof fn lemma_score_of(candidates: Seq<ExpertCandidateView>, author: Seq<char>, c: int)
    requires
        is_first_of(candidates, author, c),
    ensures
        score_of(candidates, author) == Some(candidates[c].score),
    decreases candidates.len(),
{
    if c > 0 {
        let rest = candidates.drop_first();
        assert(candidates[0].author != author);
        assert forall|d: int| 0 <= d < c - 1 implies (#[trigger] rest[d]).author != author by {
            assert(rest[d] == candidates[d + 1]);
        }
        lemma_score_of(rest, author, c - 1);
    }
}

proof fn lemma_no_score_of(candidates: Seq<ExpertCandidateView>, author: Seq<char>)
    requires
        forall|d: int|
            0 <= d < candidates.len() ==> (#[trigger] candidates[d]).author != author,
    ensures
        score_of(candidates, author) is None,
    decreases candidates.len(),
{
    if candidates.len() > 0 {
        let rest = candidates.drop_first();
        assert(candidates[0].author != author);
        assert forall|d: int| 0 <= d < rest.len() implies (#[trigger] rest[d]).author
            != author by {
            assert(rest[d] == candidates[d + 1]);
        }
        lemma_no_score_of(rest, author);
    }
}

/// An author's first place among candidates, if there is one.
proof fn lemma_find_first(candidates: Seq<ExpertCandidateView>, author: Seq<char>, c: int) -> (r: int)
    requires
        0 <= c < candidates.len(),
        candidates[c].author == author,
    ensures
        is_first_of(candidates, author, r),
    decreases c,
{
    if exists|d: int| 0 <= d < c && (#[trigger] candidates[d]).author == author {
        let d = choose|d: int| 0 <= d < c && (#[trigger] candidates[d]).author == author;
        lemma_find_first(candidates, author, d)
    } else {
        c
    }
}

/// One more ownership adds its topic to a participant's list exactly if they are a
/// candidate on it, wherever they stand, with the score they have there, and leaves
/// the rest of the list.
pub proof fn an_ownership_adds_its_topic(
    participant: ParticipantView,
    ownerships: Seq<TopicOwnershipView>,
    more: TopicOwnershipView,
    c: int,
)
    ensures
        ({
            let before = snapshot(participant, ownerships).topics.to_multiset();
            let after = snapshot(participant, ownerships.push(more)).topics.to_multiset();
            &&& is_first_of(more.candidates, participant.author, c) ==> after == before.insert(
                TopicWeightView { topic: more.topic, weight: more.candidates[c].score },
            )
            &&& (forall|d: int|
                0 <= d < more.candidates.len() ==> (#[trigger] more.candidates[d]).author
                    != participant.author) ==> after == before
        }),
{
    broadcast use vstd::seq_lib::group_to_multiset_ensures;

    let all = ownerships.push(more);
    let order = |a: TopicWeightView, b: TopicWeightView| weighs_before(a, b);
    assert(all.drop_last() =~= ownerships);
    lemma_sorted_items(owned(participant.author, ownerships), order);
    lemma_sorted_items(owned(participant.author, all), order);
    if is_first_of(more.candidates, participant.author, c) {
        lemma_score_of(more.candidates, participant.author, c);
    }
    if forall|d: int|
        0 <= d < more.candidates.len() ==> (#[trigger] more.candidates[d]).author
            != participant.author {
        lemma_no_score_of(more.candidates, participant.author);
    }
}

/// A participant's list holds a topic with a weight exactly if some ownership of that
/// topic has them as a candidate, with that score at their first place.
pub proof fn a_snapshot_lists_every_candidacy(
    participant: ParticipantView,
    ownerships: Seq<TopicOwnershipView>,
    entry: TopicWeightView,
)
    ensures
        snapshot(participant, ownerships).author == participant.author,
        snapshot(participant, ownerships).display_name == participant.display_name,
        snapshot(participant, ownerships).topics.contains(entry) <==> exists|k: int, c: int|
            0 <= k < ownerships.len() && ownerships[k].topic == entry.topic && #[trigger] is_first_of(
                ownerships[k].candidates,
                participant.author,
                c,
            ) && ownerships[k].candidates[c].score == entry.weight,
    decreases ownerships.len(),
{
    broadcast use vstd::seq_lib::group_to_multiset_ensures;

    let author = participant.author;
    let list = snapshot(participant, ownerships).topics;
    let order = |a: TopicWeightView, b: TopicWeightView| weighs_before(a, b);
    lemma_sorted_items(owned(author, ownerships), order);
    assert(list.contains(entry) <==> list.to_multiset().contains(entry));
    if ownerships.len() > 0 {
        let front = ownerships.drop_last();
        let last = ownerships.last();
        a_snapshot_lists_every_candidacy(participant, front, entry);
        assert(front.push(last) =~= ownerships);
        let before = snapshot(participant, front).topics;
        assert(before.contains(entry) <==> before.to_multiset().contains(entry));
        if exists|d: int| 0 <= d < last.candidates.len() && (#[trigger] last.candidates[d]).author
            == author {
            let d = choose|d: int|
                0 <= d < last.candidates.len() && (#[trigger] last.candidates[d]).author == author;
            let c = lemma_find_first(last.candidates, author, d);
            an_ownership_adds_its_topic(participant, front, last, c);
            if entry.topic == last.topic && entry.weight == last.candidates[c].score {
                assert(is_first_of(ownerships[ownerships.len() - 1].candidates, author, c));
            }
        } else {
            an_ownership_adds_its_topic(participant, front, last, 0);
        }
        if exists|k: int, c: int|
            0 <= k < front.len() && front[k].topic == entry.topic && #[trigger] is_first_of(
                front[k].candidates,
                author,
                c,
            ) && front[k].candidates[c].score == entry.weight {
            let (k, c) = choose|k: int, c: int|
                0 <= k < front.len() && front[k].topic == entry.topic && #[trigger] is_first_of(
                    front[k].candidates,
                    author,
                    c,
                ) && front[k].candidates[c].score == entry.weight;
            assert(is_first_of(ownerships[k].candidates, author, c));
        }
        if exists|k: int, c: int|
            0 <= k < ownerships.len() && ownerships[k].topic == entry.topic
                && #[trigger] is_first_of(ownerships[k].candidates, author, c)
                && ownerships[k].candidates[c].score == entry.weight {
            let (k, c) = choose|k: int, c: int|
                0 <= k < ownerships.len() && ownerships[k].topic == entry.topic
                    && #[trigger] is_first_of(ownerships[k].candidates, author, c)
                    && ownerships[k].candidates[c].score == entry.weight;
            if k < front.len() {
                assert(is_first_of(front[k].candidates, author, c));
            } else {
                an_ownership_adds_its_topic(participant, front, last, c);
            }
        }
    }
}

/// A session shows each participant's snapshot, as often as they are given, and
/// nothing else.
pub proof fn a_session_shows_its_participants(
    conversation: Seq<char>,
    participants: Seq<ParticipantView>,
    ownerships: Seq<TopicOwnershipView>,
)
    ensures
        ({
            let session = SkillDeveloperSnapshotter.snapshot_spec(
                conversation,
                participants,
                ownerships,
            );
            &&& session.conversation == conversation
            &&& session.developers.len() == participants.len()
            &&& session.developers.to_multiset() == Seq::new(
                participants.len(),
                |i: int| snapshot(participants[i], ownerships),
            ).to_multiset()
        }),
{
    broadcast use vstd::seq_lib::group_to_multiset_ensures;

    let plain = participants.map_values(|p: ParticipantView| snapshot(p, ownerships));
    let order = |a: DeveloperSnapshotView, b: DeveloperSnapshotView| named_before(a, b);
    lemma_sorted_items(plain, order);
    assert(plain =~= Seq::new(
        participants.len(),
        |i: int| snapshot(participants[i], ownerships),
    ));
    let developers = session_developers(conversation, participants, ownerships).developers;
    assert(developers.len() == developers.to_multiset().len());
}

} // verus!
