//! A deterministic, message-based skill builder.
//!
//! It tallies each author's involvement per topic, weighted by projection
//! confidence, then normalizes per topic so that the strongest contributor
//! scores `1.0`, and ranks candidates best first, ties by ascending author id.

use crate::double::lemma_magnitude_monotone;
use crate::double::lemma_sum_bounded;
use crate::double::Double;
use crate::double::ordinal;
use crate::model::projection::Topic;
use crate::model::projector::SkillBuilder;
use crate::model::seqs::views;
use crate::model::skill::DeveloperProfile;
use crate::model::skill::DeveloperProfileView;
use crate::model::skill::ExpertCandidate;
use crate::model::skill::ExpertCandidateView;
use crate::model::skill::SkillContribution;
use crate::model::skill::SkillContributionView;
use crate::model::skill::SkillIndex;
use crate::model::skill::SkillIndexView;
use crate::model::skill::SkillScore;
use crate::model::skill::TopicOwnership;
use crate::model::skill::TopicOwnershipView;
use crate::model::skill::TopicWeight;
use crate::model::skill::TopicWeightView;
use crate::ordered::insert_sorted;
use crate::ordered::is_ascending;
use crate::ordered::keys;
use crate::ordered::lemma_insert_contains;
use crate::ordered::lemma_insert_sorted;
use crate::ordered::lemma_listed;
use crate::ordered::listed;
use crate::ordered::lists;
use crate::ordered::locate;
use crate::ordered::stable_sorted;
use crate::ordered::insert_text;
use crate::ordered::Keyed;
use crate::text::less;
use crate::text::precedes;
use vstd::prelude::*;

verus! {

/// How often `topic` stands in a list of topics.
pub open spec fn occurrences(topics: Seq<Seq<char>>, topic: Seq<char>) -> nat
    decreases topics.len(),
{
    if topics.len() == 0 {
        0
    } else {
        occurrences(topics.drop_last(), topic) + if topics.last() == topic {
            1nat
        } else {
            0nat
        }
    }
}

/// `total` with `amount` added `times` times, rounding each time.
pub open spec fn accumulated(total: Double, times: nat, amount: Double) -> Double
    decreases times,
{
    if times == 0 {
        total
    } else {
        accumulated(total, (times - 1) as nat, amount).sum_spec(amount)
    }
}

/// The weight of an author on a topic: the confidences of their contributions
/// to it, summed in order.
pub open spec fn weight(
    contributions: Seq<SkillContributionView>,
    author: Seq<char>,
    topic: Seq<char>,
) -> Double
    decreases contributions.len(),
{
    if contributions.len() == 0 {
        Double { bits: 0 }
    } else {
        let before = weight(contributions.drop_last(), author, topic);
        let last = contributions.last();
        if last.author == author {
            accumulated(before, occurrences(last.topics, topic), last.confidence)
        } else {
            before
        }
    }
}

/// Whether some contribution of the author names the topic.
pub open spec fn touches(
    contributions: Seq<SkillContributionView>,
    author: Seq<char>,
    topic: Seq<char>,
) -> bool {
    exists|i: int|
        0 <= i < contributions.len() && (#[trigger] contributions[i]).author == author
            && contributions[i].topics.contains(topic)
}

/// The author's name as their last contribution gives it.
pub open spec fn last_name(contributions: Seq<SkillContributionView>, author: Seq<char>) -> Seq<char>
    decreases contributions.len(),
{
    if contributions.len() == 0 {
        Seq::empty()
    } else if contributions.last().author == author {
        contributions.last().display_name
    } else {
        last_name(contributions.drop_last(), author)
    }
}

/// Everyone who contributed.
pub open spec fn authors(contributions: Seq<SkillContributionView>) -> Set<Seq<char>> {
    Set::new(
        |a: Seq<char>|
            exists|i: int| 0 <= i < contributions.len() && (#[trigger] contributions[i]).author == a,
    )
}

/// The topics an author contributed to.
pub open spec fn topics_of(
    contributions: Seq<SkillContributionView>,
    author: Seq<char>,
) -> Set<Seq<char>> {
    Set::new(|t: Seq<char>| touches(contributions, author, t))
}

/// Everyone who contributed to a topic.
pub open spec fn owners_of(
    contributions: Seq<SkillContributionView>,
    topic: Seq<char>,
) -> Set<Seq<char>> {
    Set::new(|a: Seq<char>| touches(contributions, a, topic))
}

/// Every topic that someone contributed to.
pub open spec fn all_topics(contributions: Seq<SkillContributionView>) -> Set<Seq<char>> {
    Set::new(|t: Seq<char>| exists|a: Seq<char>| touches(contributions, a, t))
}

/// The profile of an author: their last name and their weight per topic, topics
/// ascending.
pub open spec fn profile(
    contributions: Seq<SkillContributionView>,
    author: Seq<char>,
) -> DeveloperProfileView {
    DeveloperProfileView {
        author,
        display_name: last_name(contributions, author),
        topics: listed(topics_of(contributions, author)).map_values(
            |t: Seq<char>| TopicWeightView { topic: t, weight: weight(contributions, author, t) },
        ),
    }
}

/// The largest weight on a topic among the given authors.
pub open spec fn strongest(
    contributions: Seq<SkillContributionView>,
    names: Seq<Seq<char>>,
    topic: Seq<char>,
) -> Double
    decreases names.len(),
{
    if names.len() == 0 {
        Double { bits: 0 }
    } else {
        let before = strongest(contributions, names.drop_last(), topic);
        let last = weight(contributions, names.last(), topic);
        if before.less_spec(last) {
            last
        } else {
            before
        }
    }
}

/// A weight as a share of the largest one.
pub open spec fn share(part: Double, whole: Double) -> Double {
    if (Double { bits: 0 }).less_spec(whole) {
        part.quotient_spec(whole).clamp_unit_spec()
    } else {
        (Double { bits: 0 }).clamp_unit_spec()
    }
}

/// The ranking of candidates: the higher score first, then the smaller author id.
pub open spec fn ranks_before(a: ExpertCandidateView, b: ExpertCandidateView) -> bool {
    b.score.less_spec(a.score) || (!a.score.less_spec(b.score) && precedes(a.author, b.author))
}

/// An author as a candidate for a topic whose largest weight is `top`.
pub open spec fn candidate(
    contributions: Seq<SkillContributionView>,
    author: Seq<char>,
    topic: Seq<char>,
    top: Double,
) -> ExpertCandidateView {
    ExpertCandidateView {
        author,
        display_name: last_name(contributions, author),
        score: share(weight(contributions, author, topic), top),
    }
}

/// The ownership of a topic: everyone who contributed to it, ranked.
pub open spec fn ownership(
    contributions: Seq<SkillContributionView>,
    topic: Seq<char>,
) -> TopicOwnershipView {
    let names = listed(owners_of(contributions, topic));
    let top = strongest(contributions, names, topic);
    TopicOwnershipView {
        topic,
        candidates: stable_sorted(
            names.map_values(|a: Seq<char>| candidate(contributions, a, topic, top)),
            |a: ExpertCandidateView, b: ExpertCandidateView| ranks_before(a, b),
        ),
    }
}

/// The index: a profile per author, authors ascending, and an ownership per
/// topic, topics ascending.
pub open spec fn skill_index(contributions: Seq<SkillContributionView>) -> SkillIndexView {
    SkillIndexView {
        profiles: listed(authors(contributions)).map_values(
            |a: Seq<char>| profile(contributions, a),
        ),
        ownerships: listed(all_topics(contributions)).map_values(
            |t: Seq<char>| ownership(contributions, t),
        ),
    }
}

impl Keyed for DeveloperProfile {
    open spec fn key_spec(&self) -> Seq<char> {
        self.author@
    }

    fn key(&self) -> (r: &str) {
        self.author.0.as_str()
    }
}

impl Keyed for TopicWeight {
    open spec fn key_spec(&self) -> Seq<char> {
        self.topic@
    }

    fn key(&self) -> (r: &str) {
        self.topic.0.as_str()
    }
}

/// Whether every confidence lies in `0.0..=1.0`.
pub open spec fn in_range(contributions: Seq<SkillContributionView>) -> bool {
    forall|i: int| 0 <= i < contributions.len() ==> (#[trigger] contributions[i]).confidence.in_unit()
}

proof fn lemma_accumulated_bounded(total: Double, times: nat, amount: Double)
    requires
        total.is_score_sum(),
        amount.in_unit(),
    ensures
        accumulated(total, times, amount).is_score_sum(),
    decreases times,
{
    if times > 0 {
        lemma_accumulated_bounded(total, (times - 1) as nat, amount);
        lemma_sum_bounded(accumulated(total, (times - 1) as nat, amount), amount);
    }
}

/// A weight stays a sum of scores.
pub proof fn lemma_weight_bounded(
    contributions: Seq<SkillContributionView>,
    author: Seq<char>,
    topic: Seq<char>,
)
    requires
        in_range(contributions),
    ensures
        weight(contributions, author, topic).is_score_sum(),
    decreases contributions.len(),
{
    if contributions.len() > 0 {
        let before = contributions.drop_last();
        let last = contributions.last();
        assert(in_range(before)) by {
            assert forall|i: int| 0 <= i < before.len() implies (
            #[trigger] before[i]).confidence.in_unit() by {
                assert(before[i] == contributions[i]);
            }
        }
        assert(contributions[contributions.len() - 1].confidence.in_unit());
        lemma_weight_bounded(before, author, topic);
        lemma_accumulated_bounded(
            weight(before, author, topic),
            occurrences(last.topics, topic),
            last.confidence,
        );
    }
}

proof fn lemma_no_occurrence(topics: Seq<Seq<char>>, topic: Seq<char>)
    requires
        !topics.contains(topic),
    ensures
        occurrences(topics, topic) == 0,
    decreases topics.len(),
{
    if topics.len() > 0 {
        assert(topics[topics.len() - 1] == topics.last());
        assert forall|i: int| 0 <= i < topics.len() - 1 implies topics.drop_last()[i] != topic by {
            assert(topics[i] != topic);
        }
        lemma_no_occurrence(topics.drop_last(), topic);
    }
}

/// An untouched topic has no weight.
pub proof fn lemma_untouched(
    contributions: Seq<SkillContributionView>,
    author: Seq<char>,
    topic: Seq<char>,
)
    requires
        !touches(contributions, author, topic),
    ensures
        weight(contributions, author, topic) == (Double { bits: 0 }),
    decreases contributions.len(),
{
    if contributions.len() > 0 {
        let before = contributions.drop_last();
        let last = contributions.last();
        assert(last == contributions[contributions.len() - 1]);
        if touches(before, author, topic) {
            let i = choose|i: int|
                0 <= i < before.len() && (#[trigger] before[i]).author == author
                    && before[i].topics.contains(topic);
            assert(contributions[i] == before[i]);
        }
        lemma_untouched(before, author, topic);
        if last.author == author {
            lemma_no_occurrence(last.topics, topic);
        }
    }
}

/// The contribution with only its first `n` topics.
spec fn shortened(c: SkillContributionView, n: int) -> SkillContributionView {
    SkillContributionView { topics: c.topics.take(n), ..c }
}

/// What one more topic of a contribution changes.
proof fn lemma_one_topic(p: Seq<SkillContributionView>, c: SkillContributionView, n: int)
    requires
        0 <= n < c.topics.len(),
    ensures
        forall|a: Seq<char>, t: Seq<char>| #[trigger]
            touches(p.push(shortened(c, n + 1)), a, t) <==> (touches(p.push(shortened(c, n)), a, t)
                || (a == c.author && t == c.topics[n])),
        forall|t: Seq<char>| #[trigger]
            weight(p.push(shortened(c, n + 1)), c.author, t) == if t == c.topics[n] {
                weight(p.push(shortened(c, n)), c.author, t).sum_spec(c.confidence)
            } else {
                weight(p.push(shortened(c, n)), c.author, t)
            },
        forall|a: Seq<char>| #[trigger]
            last_name(p.push(shortened(c, n + 1)), a) == last_name(p.push(shortened(c, n)), a),
{
    let small = p.push(shortened(c, n));
    let big = p.push(shortened(c, n + 1));
    assert(small.drop_last() =~= p);
    assert(big.drop_last() =~= p);
    assert(c.topics.take(n + 1).drop_last() =~= c.topics.take(n));
    assert(c.topics.take(n + 1).last() == c.topics[n]);
    assert forall|a: Seq<char>, t: Seq<char>| #[trigger]
        touches(big, a, t) <==> (touches(small, a, t) || (a == c.author && t == c.topics[n])) by {
        lemma_touches_push(p, shortened(c, n), a, t);
        lemma_touches_push(p, shortened(c, n + 1), a, t);
        let s = c.topics.take(n);
        let b = c.topics.take(n + 1);
        if b.contains(t) {
            let k = choose|k: int| 0 <= k < b.len() && b[k] == t;
            if k < n {
                assert(s[k] == t);
            }
        }
        if s.contains(t) {
            let k = choose|k: int| 0 <= k < s.len() && s[k] == t;
            assert(b[k] == t);
        }
        assert(b[n] == c.topics[n]);
    }
    assert forall|t: Seq<char>| #[trigger]
        weight(big, c.author, t) == if t == c.topics[n] {
            weight(small, c.author, t).sum_spec(c.confidence)
        } else {
            weight(small, c.author, t)
        } by {
        assert(big.last() == shortened(c, n + 1));
        assert(small.last() == shortened(c, n));
        let o = occurrences(c.topics.take(n), t);
        assert(occurrences(c.topics.take(n + 1), t) == o + if c.topics[n] == t { 1nat } else { 0nat });
    }
    assert forall|a: Seq<char>| #[trigger] last_name(big, a) == last_name(small, a) by {
        assert(big.last() == shortened(c, n + 1));
        assert(small.last() == shortened(c, n));
    }
}

/// What a further contribution changes of who touches what.
proof fn lemma_touches_push(
    p: Seq<SkillContributionView>,
    c: SkillContributionView,
    a: Seq<char>,
    t: Seq<char>,
)
    ensures
        touches(p.push(c), a, t) <==> (touches(p, a, t) || (a == c.author && c.topics.contains(t))),
{
    let q = p.push(c);
    if touches(q, a, t) {
        let i = choose|i: int|
            0 <= i < q.len() && (#[trigger] q[i]).author == a && q[i].topics.contains(t);
        if i < p.len() {
            assert(p[i] == q[i]);
        }
    }
    if touches(p, a, t) {
        let i = choose|i: int|
            0 <= i < p.len() && (#[trigger] p[i]).author == a && p[i].topics.contains(t);
        assert(q[i] == p[i]);
    }
    if a == c.author && c.topics.contains(t) {
        assert(q[p.len() as int] == c);
    }
}

/// Whether `row` is the profile of its author.
spec fn is_profile(row: DeveloperProfile, p: Seq<SkillContributionView>) -> bool {
    &&& row.display_name@ == last_name(p, row.author@)
    &&& lists(keys(row.topics@), topics_of(p, row.author@))
    &&& forall|j: int|
        0 <= j < row.topics@.len() ==> (#[trigger] row.topics@[j]).weight == weight(
            p,
            row.author@,
            row.topics@[j].topic@,
        )
}

/// A row that is a profile has the profile's view.
proof fn lemma_is_profile(row: DeveloperProfile, p: Seq<SkillContributionView>)
    requires
        is_profile(row, p),
    ensures
        row@ == profile(p, row.author@),
{
    lemma_listed(keys(row.topics@), topics_of(p, row.author@));
    assert(row@.topics =~= profile(p, row.author@).topics);
}

/// Adds a contribution to its author's row.
fn add_contribution(
    row: &mut DeveloperProfile,
    contribution: &SkillContribution,
    Ghost(p): Ghost<Seq<SkillContributionView>>,
)
    requires
        old(row).author@ == contribution.author@,
        in_range(p),
        lists(keys(old(row).topics@), topics_of(p, old(row).author@)),
        forall|j: int|
            0 <= j < old(row).topics@.len() ==> (#[trigger] old(row).topics@[j]).weight == weight(
                p,
                old(row).author@,
                old(row).topics@[j].topic@,
            ),
    ensures
        is_profile(*final(row), p.push(contribution@)),
        final(row).author == old(row).author,
{
    let amount = contribution.confidence.get();
    row.display_name = contribution.display_name.clone();
    let ghost c = contribution@;
    let ghost q0 = p.push(shortened(c, 0));
    proof {
        assert(q0.drop_last() =~= p);
        assert(q0.last() == shortened(c, 0));
        assert(c.topics.take(0) =~= Seq::<Seq<char>>::empty());
        assert forall|t: Seq<char>|
            topics_of(p, c.author).contains(t) <==> topics_of(q0, c.author).contains(t) by {
            lemma_touches_push(p, shortened(c, 0), c.author, t);
        }
        assert forall|t: Seq<char>| #[trigger] weight(q0, c.author, t) == weight(p, c.author, t) by {
            assert(occurrences(c.topics.take(0), t) == 0);
        }
    }
    let mut n: usize = 0;
    while n < contribution.topics.len()
        invariant
            n <= contribution.topics@.len(),
            c == contribution@,
            row.author == old(row).author,
            row.author@ == c.author,
            amount == c.confidence,
            amount.in_unit(),
            in_range(p),
            is_profile(*row, p.push(shortened(c, n as int))),
        decreases contribution.topics@.len() - n,
    {
        let ghost small = p.push(shortened(c, n as int));
        let ghost big = p.push(shortened(c, n + 1));
        let ghost before = row.topics@;
        let topic = &contribution.topics[n];
        proof {
            lemma_one_topic(p, c, n as int);
            assert(topic@ == c.topics[n as int]);
            assert(in_range(small)) by {
                assert forall|i: int| 0 <= i < small.len() implies (
                #[trigger] small[i]).confidence.in_unit() by {
                    if i < p.len() {
                        assert(p[i].confidence.in_unit());
                    }
                }
            }
            lemma_weight_bounded(small, c.author, topic@);
            lemma_sum_bounded(weight(small, c.author, topic@), amount);
        }
        let slot = locate(&row.topics, topic.0.as_str());
        if slot.found {
            let total = row.topics[slot.index].weight.plus(amount);
            let updated = TopicWeight { topic: topic.clone(), weight: total };
            row.topics.set(slot.index, updated);
            proof {
                assert(keys(row.topics@) =~= keys(before));
                assert(touches(small, c.author, topic@)) by {
                    assert(topics_of(small, c.author).contains(topic@));
                }
                assert(topics_of(big, c.author) =~= topics_of(small, c.author));
                assert forall|j: int| 0 <= j < row.topics@.len() implies (
                #[trigger] row.topics@[j]).weight == weight(
                    big,
                    row.author@,
                    row.topics@[j].topic@,
                ) by {
                    if j != slot.index {
                        assert(row.topics@[j] == before[j]);
                        let low = if j < slot.index { j } else { slot.index as int };
                        let high = if j < slot.index { slot.index as int } else { j };
                        assert(keys(before)[low] == before[low].topic@);
                        assert(keys(before)[high] == before[high].topic@);
                        assert(precedes(keys(before)[low], keys(before)[high]));
                        crate::text::lemma_precedes_irreflexive(topic@);
                    }
                }
            }
        } else {
            let zero = Double::from_bits(0);
            let total = zero.plus(amount);
            let fresh = TopicWeight { topic: topic.clone(), weight: total };
            proof {
                assert(!touches(small, c.author, topic@)) by {
                    if touches(small, c.author, topic@) {
                        assert(topics_of(small, c.author).contains(topic@));
                    }
                }
                lemma_untouched(small, c.author, topic@);
            }
            row.topics.insert(slot.index, fresh);
            proof {
                let at = slot.index as int;
                assert(keys(row.topics@) =~= keys(before).insert(at, topic@));
                lemma_insert_contains(keys(before), at, topic@);
                assert forall|x: Seq<char>| #[trigger]
                    keys(row.topics@).contains(x) <==> topics_of(big, row.author@).contains(x) by {
                    assert(keys(before).contains(x) <==> topics_of(small, c.author).contains(x));
                    assert(touches(big, c.author, x) <==> (touches(small, c.author, x) || x
                        == topic@));
                }
                assert forall|j: int| 0 <= j < row.topics@.len() implies (
                #[trigger] row.topics@[j]).weight == weight(
                    big,
                    row.author@,
                    row.topics@[j].topic@,
                ) by {
                    if j != at {
                        let k = if j < at { j } else { j - 1 };
                        assert(row.topics@[j] == before[k]);
                        assert(keys(before)[k] == before[k].topic@);
                        assert(keys(before).contains(before[k].topic@));
                        assert(before[k].topic@ != topic@);
                    }
                }
            }
        }
        n = n + 1;
    }
    proof {
        assert(shortened(c, n as int).topics =~= c.topics);
        assert(shortened(c, n as int) == c);
    }
}

/// Whether the rows are the profiles of everyone who contributed.
spec fn is_table(rows: Seq<DeveloperProfile>, p: Seq<SkillContributionView>) -> bool {
    &&& lists(keys(rows), authors(p))
    &&& forall|k: int| 0 <= k < rows.len() ==> is_profile(#[trigger] rows[k], p)
}

/// A contribution leaves the profiles of other authors as they are.
proof fn lemma_other_profile(row: DeveloperProfile, p: Seq<SkillContributionView>, c: SkillContributionView)
    requires
        is_profile(row, p),
        row.author@ != c.author,
    ensures
        is_profile(row, p.push(c)),
{
    let q = p.push(c);
    assert(q.drop_last() =~= p);
    assert(q.last() == c);
    assert forall|t: Seq<char>|
        topics_of(q, row.author@).contains(t) <==> topics_of(p, row.author@).contains(t) by {
        lemma_touches_push(p, c, row.author@, t);
    }
}

/// Who contributed after one more contribution.
proof fn lemma_authors_push(p: Seq<SkillContributionView>, c: SkillContributionView)
    ensures
        authors(p.push(c)) == authors(p).insert(c.author),
{
    let q = p.push(c);
    assert forall|a: Seq<char>| authors(q).contains(a) <==> authors(p).insert(c.author).contains(a) by {
        if authors(q).contains(a) {
            let i = choose|i: int| 0 <= i < q.len() && (#[trigger] q[i]).author == a;
            if i < p.len() {
                assert(p[i] == q[i]);
            }
        }
        if authors(p).contains(a) {
            let i = choose|i: int| 0 <= i < p.len() && (#[trigger] p[i]).author == a;
            assert(q[i] == p[i]);
        }
        assert(q[p.len() as int] == c);
    }
    assert(authors(q) =~= authors(p).insert(c.author));
}

/// Tallies the contributions into one profile per author.
fn tally(contributions: &[SkillContribution]) -> (rows: Vec<DeveloperProfile>)
    ensures
        is_table(rows@, views(contributions@)),
        in_range(views(contributions@)),
{
    let mut rows: Vec<DeveloperProfile> = Vec::new();
    let ghost all = views(contributions@);
    let mut i: usize = 0;
    assert(is_table(rows@, all.take(0)));
    while i < contributions.len()
        invariant
            all == views(contributions@),
            i <= contributions@.len(),
            is_table(rows@, all.take(i as int)),
            in_range(all.take(i as int)),
        decreases contributions@.len() - i,
    {
        let contribution = &contributions[i];
        let ghost p = all.take(i as int);
        let ghost c = contribution@;
        let checked = contribution.confidence.get();
        proof {
            assert(all.take(i + 1) =~= p.push(c));
            assert(in_range(all.take(i + 1))) by {
                assert forall|k: int| 0 <= k < all.take(i + 1).len() implies (
                #[trigger] all.take(i + 1)[k]).confidence.in_unit() by {
                    if k < i {
                        assert(all.take(i + 1)[k] == p[k]);
                    } else {
                        assert(all.take(i + 1)[k] == c);
                    }
                }
            }
            lemma_authors_push(p, c);
        }
        let slot = locate(&rows, contribution.author.0.as_str());
        let ghost before = rows@;
        if !slot.found {
            let fresh = DeveloperProfile {
                author: contribution.author.clone(),
                display_name: contribution.display_name.clone(),
                topics: Vec::new(),
            };
            proof {
                assert forall|t: Seq<char>| !topics_of(p, c.author).contains(t) by {
                    if touches(p, c.author, t) {
                        let k = choose|k: int|
                            0 <= k < p.len() && (#[trigger] p[k]).author == c.author
                                && p[k].topics.contains(t);
                        assert(authors(p).contains(c.author));
                        assert(keys(before).contains(c.author));
                    }
                }
                assert(lists(keys(fresh.topics@), topics_of(p, c.author)));
            }
            rows.insert(slot.index, fresh);
            proof {
                assert(keys(rows@) =~= keys(before).insert(slot.index as int, c.author));
                lemma_insert_contains(keys(before), slot.index as int, c.author);
            }
        }
        let ghost middle = rows@;
        proof {
            let at = slot.index as int;
            assert(keys(middle)[at] == middle[at].author@);
            assert forall|k: int| 0 <= k < middle.len() && k != at implies is_profile(
                #[trigger] middle[k],
                p,
            ) && middle[k].author@ != c.author by {
                if slot.found {
                    assert(middle[k] == before[k]);
                } else {
                    let j = if k < at { k } else { k - 1 };
                    assert(middle[k] == before[j]);
                }
                assert(keys(middle)[k] == middle[k].author@);
                let low = if k < at { k } else { at };
                let high = if k < at { at } else { k };
                assert(precedes(keys(middle)[low], keys(middle)[high]));
                crate::text::lemma_precedes_irreflexive(c.author);
            }
            if slot.found {
                assert(is_profile(before[at], p));
            }
        }
        add_contribution(&mut rows[slot.index], contribution, Ghost(p));
        proof {
            let q = p.push(c);
            assert forall|k: int| 0 <= k < rows@.len() implies is_profile(#[trigger] rows@[k], q) by {
                if k != slot.index {
                    assert(rows@[k] == middle[k]);
                    lemma_other_profile(middle[k], p, c);
                }
            }
            assert(keys(rows@) =~= keys(middle));
            assert forall|x: Seq<char>| #[trigger]
                keys(rows@).contains(x) <==> authors(q).contains(x) by {
                assert(keys(before).contains(x) <==> authors(p).contains(x));
            }
        }
        i = i + 1;
    }
    assert(all.take(i as int) =~= all);
    rows
}

/// The ranking, computed.
pub(crate) fn ranks_ahead(a: &ExpertCandidate, b: &ExpertCandidate) -> (r: bool)
    ensures
        r == ranks_before(a@, b@),
{
    if b.score.get().less(a.score.get()) {
        true
    } else if a.score.get().less(b.score.get()) {
        false
    } else {
        less(a.author.0.as_str(), b.author.0.as_str())
    }
}

/// Puts a candidate into a ranked list.
pub(crate) fn rank_into(ranked: &mut Vec<ExpertCandidate>, fresh: ExpertCandidate)
    ensures
        views(final(ranked)@) == insert_sorted(
            views(old(ranked)@),
            fresh@,
            |a: ExpertCandidateView, b: ExpertCandidateView| ranks_before(a, b),
        ),
{
    let mut at: usize = ranked.len();
    while at > 0 && ranks_ahead(&fresh, &ranked[at - 1])
        invariant
            at <= ranked@.len(),
            forall|i: int| at <= i < ranked@.len() ==> ranks_before(fresh@, #[trigger] ranked@[i]@),
        decreases at,
    {
        at = at - 1;
    }
    let ghost before = views(ranked@);
    proof {
        assert forall|i: int| at <= i < before.len() implies ranks_before(
            fresh@,
            #[trigger] before[i],
        ) by {
            assert(before[i] == ranked@[i]@);
        }
        if at > 0 {
            assert(before[at - 1] == ranked@[at - 1]@);
        }
        lemma_insert_sorted(
            before,
            fresh@,
            |a: ExpertCandidateView, b: ExpertCandidateView| ranks_before(a, b),
            at as int,
        );
    }
    let ghost added = fresh@;
    ranked.insert(at, fresh);
    assert(views(ranked@) =~= before.insert(at as int, added));
}

/// A weight as a share of the largest one.
pub(crate) fn share_of(part: Double, whole: Double) -> (r: SkillScore)
    requires
        part.is_natural(),
        whole.is_natural(),
    ensures
        r@ == share(part, whole),
{
    let zero = Double::from_bits(0);
    if zero.less(whole) {
        proof {
            lemma_magnitude_monotone(0, ordinal(whole.bits) as nat);
        }
        SkillScore::new(part.over(whole))
    } else {
        SkillScore::new(zero)
    }
}

/// The index of an author's weight on a topic, if they touch it.
fn weight_on(row: &DeveloperProfile, topic: &str, Ghost(p): Ghost<Seq<SkillContributionView>>) -> (r:
    Option<Double>)
    requires
        is_profile(*row, p),
    ensures
        match r {
            Some(w) => touches(p, row.author@, topic@) && w == weight(p, row.author@, topic@),
            None => !touches(p, row.author@, topic@),
        },
{
    let slot = locate(&row.topics, topic);
    proof {
        assert(keys(row.topics@).contains(topic@) <==> topics_of(p, row.author@).contains(topic@));
    }
    if slot.found {
        Some(row.topics[slot.index].weight)
    } else {
        None
    }
}

/// The ownership of one topic.
fn rank_topic(
    rows: &Vec<DeveloperProfile>,
    topic: &String,
    Ghost(p): Ghost<Seq<SkillContributionView>>,
) -> (r: TopicOwnership)
    requires
        is_table(rows@, p),
        in_range(p),
    ensures
        r@ == ownership(p, topic@),
{
    let mut owners: Vec<usize> = Vec::new();
    let mut weights: Vec<Double> = Vec::new();
    let mut top = Double::from_bits(0);
    let ghost mut names: Seq<Seq<char>> = Seq::empty();
    let mut k: usize = 0;
    while k < rows.len()
        invariant
            is_table(rows@, p),
            in_range(p),
            k <= rows@.len(),
            owners@.len() == names.len(),
            weights@.len() == names.len(),
            forall|i: int|
                0 <= i < names.len() ==> (#[trigger] owners@[i]) < k && names[i]
                    == rows@[owners@[i] as int].author@,
            forall|i: int, j: int| 0 <= i < j < names.len() ==> owners@[i] < owners@[j],
            forall|i: int|
                0 <= i < names.len() ==> #[trigger] weights@[i] == weight(p, names[i], topic@)
                    && weights@[i].is_score_sum(),
            forall|i: int|
                0 <= i < names.len() ==> touches(p, #[trigger] names[i], topic@),
            forall|n: int|
                0 <= n < k && touches(p, (#[trigger] rows@[n]).author@, topic@) ==> names.contains(
                    rows@[n].author@,
                ),
            top == strongest(p, names, topic@),
            top.is_score_sum(),
        decreases rows@.len() - k,
    {
        let ghost old_names = names;
        if let Some(w) = weight_on(&rows[k], topic.as_str(), Ghost(p)) {
            proof {
                let name = rows@[k as int].author@;
                lemma_weight_bounded(p, name, topic@);
                names = names.push(name);
                assert(names.drop_last() =~= old_names);
                assert(names[names.len() - 1] == name);
                assert forall|n: int|
                    0 <= n < k + 1 && touches(p, (#[trigger] rows@[n]).author@, topic@) implies names.contains(
                rows@[n].author@) by {
                    if n < k {
                        assert(old_names.contains(rows@[n].author@));
                        let m = choose|m: int|
                            0 <= m < old_names.len() && old_names[m] == rows@[n].author@;
                        assert(names[m] == rows@[n].author@);
                    }
                }
            }
            owners.push(k);
            weights.push(w);
            if top.less(w) {
                top = w;
            }
        }
        k = k + 1;
    }
    proof {
        assert forall|i: int, j: int| 0 <= i < j < names.len() implies precedes(
            names[i],
            names[j],
        ) by {
            let a = owners@[i] as int;
            let b = owners@[j] as int;
            assert(keys(rows@)[a] == names[i]);
            assert(keys(rows@)[b] == names[j]);
        }
        assert forall|x: Seq<char>| #[trigger]
            names.contains(x) <==> owners_of(p, topic@).contains(x) by {
            if owners_of(p, topic@).contains(x) {
                let i = choose|i: int|
                    0 <= i < p.len() && (#[trigger] p[i]).author == x && p[i].topics.contains(
                        topic@,
                    );
                assert(authors(p).contains(x));
                assert(keys(rows@).contains(x));
                let n = choose|n: int| 0 <= n < keys(rows@).len() && keys(rows@)[n] == x;
                assert(rows@[n].author@ == x);
            }
        }
        lemma_listed(names, owners_of(p, topic@));
    }
    let mut ranked: Vec<ExpertCandidate> = Vec::new();
    let ghost plain = names.map_values(|a: Seq<char>| candidate(p, a, topic@, top));
    let ghost order = |a: ExpertCandidateView, b: ExpertCandidateView| ranks_before(a, b);
    let mut i: usize = 0;
    proof {
        assert(views(ranked@) =~= stable_sorted(plain.take(0), order));
    }
    while i < owners.len()
        invariant
            is_table(rows@, p),
            i <= owners@.len(),
            owners@.len() == names.len(),
            weights@.len() == names.len(),
            forall|j: int|
                0 <= j < names.len() ==> (#[trigger] owners@[j]) < rows@.len() && names[j]
                    == rows@[owners@[j] as int].author@,
            forall|j: int|
                0 <= j < names.len() ==> #[trigger] weights@[j] == weight(p, names[j], topic@)
                    && weights@[j].is_score_sum(),
            top.is_score_sum(),
            plain == names.map_values(|a: Seq<char>| candidate(p, a, topic@, top)),
            order == (|a: ExpertCandidateView, b: ExpertCandidateView| ranks_before(a, b)),
            views(ranked@) == stable_sorted(plain.take(i as int), order),
        decreases owners@.len() - i,
    {
        let row = &rows[owners[i]];
        let fresh = ExpertCandidate {
            author: row.author.clone(),
            display_name: row.display_name.clone(),
            score: share_of(weights[i], top),
        };
        proof {
            assert(is_profile(*row, p));
            assert(fresh@ == plain[i as int]);
            assert(plain.take(i + 1).drop_last() =~= plain.take(i as int));
            assert(plain.take(i + 1).last() == fresh@);
        }
        rank_into(&mut ranked, fresh);
        i = i + 1;
    }
    assert(plain.take(i as int) =~= plain);
    TopicOwnership { topic: Topic(topic.clone()), candidates: ranked }
}

/// The ranked owners of one topic.
pub(crate) fn owner_ranking(contributions: &[SkillContribution], topic: &String) -> (r: Vec<
    ExpertCandidate,
>)
    ensures
        views(r@) == ownership(views(contributions@), topic@).candidates,
{
    let rows = tally(contributions);
    rank_topic(&rows, topic, Ghost(views(contributions@))).candidates
}

/// Lists every topic of the table.
fn topic_list(rows: &Vec<DeveloperProfile>, Ghost(p): Ghost<Seq<SkillContributionView>>) -> (r: Vec<
    String,
>)
    requires
        is_table(rows@, p),
    ensures
        lists(keys(r@), all_topics(p)),
{
    let mut topics: Vec<String> = Vec::new();
    let mut k: usize = 0;
    while k < rows.len()
        invariant
            is_table(rows@, p),
            k <= rows@.len(),
            is_ascending(keys(topics@)),
            forall|t: Seq<char>| #[trigger]
                keys(topics@).contains(t) <==> exists|n: int|
                    0 <= n < k && touches(p, (#[trigger] rows@[n]).author@, t),
        decreases rows@.len() - k,
    {
        let row = &rows[k];
        let ghost before = keys(topics@);
        let mut j: usize = 0;
        proof {
            assert(is_profile(rows@[k as int], p));
        }
        while j < row.topics.len()
            invariant
                j <= row.topics@.len(),
                is_ascending(keys(topics@)),
                forall|t: Seq<char>| #[trigger]
                    keys(topics@).contains(t) <==> (before.contains(t) || keys(row.topics@).take(
                        j as int,
                    ).contains(t)),
            decreases row.topics@.len() - j,
        {
            let ghost middle = keys(topics@);
            insert_text(&mut topics, &row.topics[j].topic.0);
            proof {
                let names = keys(row.topics@);
                assert(names.take(j + 1) =~= names.take(j as int).push(names[j as int]));
                lemma_push_contains(names.take(j as int), names[j as int]);
            }
            j = j + 1;
        }
        proof {
            assert(keys(row.topics@).take(j as int) =~= keys(row.topics@));
            assert forall|t: Seq<char>| #[trigger]
                keys(topics@).contains(t) <==> exists|n: int|
                    0 <= n < k + 1 && touches(p, (#[trigger] rows@[n]).author@, t) by {
                assert(keys(row.topics@).contains(t) <==> topics_of(p, row.author@).contains(t));
                if before.contains(t) {
                    let n = choose|n: int| 0 <= n < k && touches(p, (#[trigger] rows@[n]).author@, t);
                    assert(touches(p, rows@[n].author@, t));
                }
                if touches(p, row.author@, t) {
                    assert(touches(p, rows@[k as int].author@, t));
                }
                if exists|n: int| 0 <= n < k + 1 && touches(p, (#[trigger] rows@[n]).author@, t) {
                    let n = choose|n: int|
                        0 <= n < k + 1 && touches(p, (#[trigger] rows@[n]).author@, t);
                    if n < k {
                        assert(before.contains(t));
                    }
                }
            }
        }
        k = k + 1;
    }
    proof {
        assert forall|t: Seq<char>| #[trigger]
            keys(topics@).contains(t) <==> all_topics(p).contains(t) by {
            if all_topics(p).contains(t) {
                let a = choose|a: Seq<char>| touches(p, a, t);
                let i = choose|i: int|
                    0 <= i < p.len() && (#[trigger] p[i]).author == a && p[i].topics.contains(t);
                assert(authors(p).contains(a));
                assert(keys(rows@).contains(a));
                let n = choose|n: int| 0 <= n < keys(rows@).len() && keys(rows@)[n] == a;
                assert(touches(p, rows@[n].author@, t));
            }
        }
    }
    topics
}

/// What a list holds after a push.
proof fn lemma_push_contains<T>(s: Seq<T>, x: T)
    ensures
        forall|y: T| #[trigger] s.push(x).contains(y) <==> (s.contains(y) || y == x),
{
    assert(s.push(x) =~= s.insert(s.len() as int, x));
    lemma_insert_contains(s, s.len() as int, x);
}

/// A deterministic [`SkillBuilder`] over message contributions.
#[derive(Clone, Copy, Debug)]
pub struct MessageSkillBuilder;

impl MessageSkillBuilder {
    /// Creates a message skill builder.
    pub fn new() -> (r: Self) {
        MessageSkillBuilder
    }
}

impl Default for MessageSkillBuilder {
    fn default() -> (r: Self) {
        MessageSkillBuilder
    }
}

impl SkillBuilder for MessageSkillBuilder {
    open spec fn index_spec(&self, contributions: Seq<SkillContributionView>) -> SkillIndexView {
        skill_index(contributions)
    }

    fn build(&self, contributions: &[SkillContribution]) -> (r: SkillIndex) {
        let ghost p = views(contributions@);
        let rows = tally(contributions);
        let topics = topic_list(&rows, Ghost(p));
        let mut ownerships: Vec<TopicOwnership> = Vec::new();
        let mut i: usize = 0;
        while i < topics.len()
            invariant
                is_table(rows@, p),
                in_range(p),
                i <= topics@.len(),
                ownerships@.len() == i,
                forall|j: int|
                    0 <= j < i ==> (#[trigger] ownerships@[j])@ == ownership(p, topics@[j]@),
            decreases topics@.len() - i,
        {
            ownerships.push(rank_topic(&rows, &topics[i], Ghost(p)));
            i = i + 1;
        }
        proof {
            lemma_listed(keys(rows@), authors(p));
            lemma_listed(keys(topics@), all_topics(p));
            assert forall|k: int| 0 <= k < rows@.len() implies (#[trigger] rows@[k])@ == profile(
                p,
                rows@[k].author@,
            ) by {
                lemma_is_profile(rows@[k], p);
            }
            assert(views(rows@) =~= skill_index(p).profiles);
            assert(views(ownerships@) =~= skill_index(p).ownerships);
        }
        SkillIndex { profiles: rows, ownerships }
    }
}

} // verus!
