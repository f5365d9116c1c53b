//! Laws of expertise: what scores and weights say of who contributed what.

use super::ranking::lemma_owners_listed;
use super::ranking::lemma_ownership_sorted;
use super::ranking::lemma_ranking_order;
use super::ranking::lemma_strongest;
use super::ranking::owners_are_contributors;
use super::ranking::owners_come_best_first;
use super::ranking::the_index_is_in_order;
use super::ranking::unranked;
use crate::double::lemma_magnitude_monotone;
use crate::double::lemma_nearest_exists;
use crate::double::lemma_one;
use crate::double::lemma_rounding_at_least;
use crate::double::lemma_rounding_bounded;
use crate::double::magnitude;
use crate::double::nearest;
use crate::double::one_unit;
use crate::double::ordinal;
use crate::double::rounds_to;
use crate::double::total;
use crate::double::Double;
use crate::double::ONE_BITS;
use crate::model::projector::SkillBuilder;
use crate::model::skill::DeveloperProfileView;
use crate::model::skill::ExpertCandidateView;
use crate::model::skill::SkillContributionView;
use crate::ordered::all_ok;
use crate::ordered::lemma_listable;
use crate::ordered::lemma_stable_sorted;
use crate::ordered::listed;
use crate::ordered::lists;
use crate::provider::skill::accumulated;
use crate::provider::skill::all_topics;
use crate::provider::skill::authors;
use crate::provider::skill::in_range;
use crate::provider::skill::last_name;
use crate::provider::skill::lemma_weight_bounded;
use crate::provider::skill::occurrences;
use crate::provider::skill::owners_of;
use crate::provider::skill::ownership;
use crate::provider::skill::profile;
use crate::provider::skill::ranks_before;
use crate::provider::skill::share;
use crate::provider::skill::skill_index;
use crate::provider::skill::strongest;
use crate::provider::skill::topics_of;
use crate::provider::skill::touches;
use crate::provider::skill::weight;
use crate::provider::skill::MessageSkillBuilder;
use crate::text::lemma_precedes_irreflexive;
use crate::text::precedes;
use vstd::prelude::*;

verus! {

/// The test for one text.
pub open spec fn same_text(text: Seq<char>) -> spec_fn(Seq<char>) -> bool {
    |x: Seq<char>| x == text
}

/// What one contribution brings an author on a topic: its confidence, once for each
/// time it names the topic.
pub open spec fn brought(c: SkillContributionView, author: Seq<char>, topic: Seq<char>) -> Seq<
    Double,
> {
    if c.author == author {
        Seq::new(c.topics.filter(same_text(topic)).len(), |i: int| c.confidence)
    } else {
        Seq::empty()
    }
}

/// All that the contributions bring an author on a topic, in order.
pub open spec fn contributed(
    p: Seq<SkillContributionView>,
    author: Seq<char>,
    topic: Seq<char>,
) -> Seq<Double>
    decreases p.len(),
{
    if p.len() == 0 {
        Seq::empty()
    } else {
        contributed(p.drop_last(), author, topic) + brought(p.last(), author, topic)
    }
}

proof fn lemma_occurrences(topics: Seq<Seq<char>>, topic: Seq<char>)
    ensures
        occurrences(topics, topic) == topics.filter(same_text(topic)).len(),
    decreases topics.len(),
{
    reveal(Seq::filter);
    if topics.len() > 0 {
        lemma_occurrences(topics.drop_last(), topic);
    }
}

proof fn lemma_accumulated(s: Seq<Double>, n: nat, amount: Double)
    ensures
        accumulated(total(s), n, amount) == total(s + Seq::new(n, |i: int| amount)),
    decreases n,
{
    let all = s + Seq::new(n, |i: int| amount);
    if n == 0 {
        assert(all =~= s);
    } else {
        let m = (n - 1) as nat;
        lemma_accumulated(s, m, amount);
        assert(all.drop_last() =~= s + Seq::new(m, |i: int| amount));
        assert(all.last() == amount);
    }
}

/// A weight is the sum of what was contributed.
pub proof fn lemma_weight_total(p: Seq<SkillContributionView>, author: Seq<char>, topic: Seq<char>)
    ensures
        weight(p, author, topic) == total(contributed(p, author, topic)),
    decreases p.len(),
{
    if p.len() > 0 {
        lemma_weight_total(p.drop_last(), author, topic);
        let last = p.last();
        lemma_occurrences(last.topics, topic);
        let before = contributed(p.drop_last(), author, topic);
        if last.author == author {
            let n = last.topics.filter(same_text(topic)).len();
            lemma_accumulated(before, n, last.confidence);
        } else {
            assert(before + Seq::<Double>::empty() =~= before);
        }
    }
}

proof fn lemma_topics_listed(p: Seq<SkillContributionView>, author: Seq<char>)
    ensures
        lists(listed(topics_of(p, author)), topics_of(p, author)),
{
    lemma_topics_finite(p);
    assert(topics_of(p, author).subset_of(all_topics(p))) by {
        assert forall|t: Seq<char>| topics_of(p, author).contains(t) implies all_topics(
            p,
        ).contains(t) by {
            assert(touches(p, author, t));
        }
    }
    vstd::set_lib::lemma_set_subset_finite(all_topics(p), topics_of(p, author));
    lemma_listable(topics_of(p, author));
}

proof fn lemma_topics_finite(p: Seq<SkillContributionView>)
    ensures
        all_topics(p).finite(),
    decreases p.len(),
{
    if p.len() == 0 {
        assert(all_topics(p) =~= Set::empty());
    } else {
        let front = p.drop_last();
        lemma_topics_finite(front);
        vstd::seq_lib::seq_to_set_is_finite(p.last().topics);
        let wide = all_topics(front).union(p.last().topics.to_set());
        assert forall|t: Seq<char>| all_topics(p).contains(t) implies wide.contains(t) by {
            let a = choose|a: Seq<char>| touches(p, a, t);
            let i = choose|i: int|
                0 <= i < p.len() && (#[trigger] p[i]).author == a && p[i].topics.contains(t);
            if i < front.len() {
                assert(front[i] == p[i]);
                assert(touches(front, a, t));
            }
        }
        vstd::set_lib::lemma_set_subset_finite(wide, all_topics(p));
    }
}

proof fn lemma_last_name(p: Seq<SkillContributionView>, author: Seq<char>, i: int)
    requires
        0 <= i < p.len(),
        p[i].author == author,
        forall|j: int| i < j < p.len() ==> (#[trigger] p[j]).author != author,
    ensures
        last_name(p, author) == p[i].display_name,
    decreases p.len(),
{
    if i < p.len() - 1 {
        let front = p.drop_last();
        assert(p[p.len() - 1].author != author);
        assert forall|j: int| i < j < front.len() implies (#[trigger] front[j]).author
            != author by {
            assert(front[j] == p[j]);
        }
        lemma_last_name(front, author, i);
    }
}

/// A profile's weight on a topic is the sum of the confidences of its author's
/// contributions to it.
pub proof fn a_profile_sums_what_was_contributed(p: Seq<SkillContributionView>, i: int, j: int)
    requires
        0 <= i < MessageSkillBuilder.index_spec(p).profiles.len(),
        0 <= j < MessageSkillBuilder.index_spec(p).profiles[i].topics.len(),
    ensures
        ({
            let row = MessageSkillBuilder.index_spec(p).profiles[i];
            row.topics[j].weight == total(contributed(p, row.author, row.topics[j].topic))
        }),
{
    let row = skill_index(p).profiles[i];
    lemma_weight_total(p, row.author, row.topics[j].topic);
}

/// Everyone who contributed has one profile, under the name their last contribution
/// gives, and it lists a topic exactly if a contribution of theirs names it.
pub proof fn a_profile_lists_what_was_contributed(
    p: Seq<SkillContributionView>,
    author: Seq<char>,
    topic: Seq<char>,
    last: int,
)
    requires
        0 <= last < p.len(),
        p[last].author == author,
        forall|k: int| last < k < p.len() ==> (#[trigger] p[k]).author != author,
    ensures
        exists|i: int|
            0 <= i < MessageSkillBuilder.index_spec(p).profiles.len()
                && #[trigger] is_profile_of(
                p,
                MessageSkillBuilder.index_spec(p).profiles[i],
                author,
                topic,
                p[last].display_name,
            ),
        forall|i: int, j: int|
            0 <= i < j < MessageSkillBuilder.index_spec(p).profiles.len()
                ==> MessageSkillBuilder.index_spec(p).profiles[i].author
                != MessageSkillBuilder.index_spec(p).profiles[j].author,
{
    let index = skill_index(p);
    let names = listed(authors(p));
    the_index_is_in_order(p);
    assert(index.profiles.map_values(|d: DeveloperProfileView| d.author) =~= names);
    assert(authors(p).contains(author));
    assert(names.contains(author));
    let i = choose|i: int| 0 <= i < names.len() && names[i] == author;
    lemma_last_name(p, author, last);
    lemma_topics_listed(p, author);
    let row = index.profiles[i];
    let list = listed(topics_of(p, author));
    assert(row == profile(p, author));
    if list.contains(topic) {
        let j = choose|j: int| 0 <= j < list.len() && list[j] == topic;
        assert(row.topics[j].topic == topic);
    }
    if exists|j: int| 0 <= j < row.topics.len() && (#[trigger] row.topics[j]).topic == topic {
        let j = choose|j: int| 0 <= j < row.topics.len() && (#[trigger] row.topics[j]).topic == topic;
        assert(list[j] == topic);
        assert(list.contains(topic));
    }
    assert(topics_of(p, author).contains(topic) <==> touches(p, author, topic));
    assert(is_profile_of(
        p,
        MessageSkillBuilder.index_spec(p).profiles[i],
        author,
        topic,
        p[last].display_name,
    ));
    assert forall|k: int, j: int| 0 <= k < j < index.profiles.len() implies index.profiles[k].author
        != index.profiles[j].author by {
        assert(names[k] == index.profiles[k].author);
        assert(names[j] == index.profiles[j].author);
        assert(precedes(names[k], names[j]));
        lemma_precedes_irreflexive(names[k]);
    }
}

/// Whether a profile is an author's, under a name, and lists a topic exactly if a
/// contribution of theirs names it.
pub open spec fn is_profile_of(
    p: Seq<SkillContributionView>,
    row: DeveloperProfileView,
    author: Seq<char>,
    topic: Seq<char>,
    name: Seq<char>,
) -> bool {
    &&& row.author == author
    &&& row.display_name == name
    &&& (exists|j: int| 0 <= j < row.topics.len() && (#[trigger] row.topics[j]).topic == topic)
        <==> exists|k: int|
        0 <= k < p.len() && (#[trigger] p[k]).author == author && p[k].topics.contains(topic)
}

/// Whether a number of scores is what they are of the largest: each the double
/// nearest to the ratio of its amount to the largest amount, or zero where that is.
pub open spec fn is_share(score: Double, amount: Double, largest: Double) -> bool {
    if largest.value() > 0 {
        rounds_to(amount.value() * one_unit(), largest.value(), score.bits as nat)
    } else {
        score.bits == 0
    }
}

/// The largest amount that one of the candidates has.
pub open spec fn is_largest(
    amounts: spec_fn(Seq<char>) -> Double,
    candidates: Seq<ExpertCandidateView>,
    largest: Double,
) -> bool {
    &&& exists|d: int|
        0 <= d < candidates.len() && amounts((#[trigger] candidates[d]).author).value()
            == largest.value()
    &&& forall|d: int|
        0 <= d < candidates.len() ==> amounts((#[trigger] candidates[d]).author).value()
            <= largest.value()
}

/// What everyone contributed to a topic.
pub open spec fn amounts_on(p: Seq<SkillContributionView>, topic: Seq<char>) -> spec_fn(
    Seq<char>,
) -> Double {
    |a: Seq<char>| total(contributed(p, a, topic))
}

proof fn lemma_magnitude_order(a: nat, b: nat)
    ensures
        a <= b <==> magnitude(a) <= magnitude(b),
        magnitude(0) == 0,
{
    if a < b {
        lemma_magnitude_monotone(a, b);
    } else if b < a {
        lemma_magnitude_monotone(b, a);
    }
}

/// A candidate's share of the largest weight.
proof fn lemma_share(part: Double, whole: Double)
    requires
        part.is_score_sum(),
        whole.is_score_sum(),
        ordinal(part.bits) <= ordinal(whole.bits),
    ensures
        is_share(share(part, whole), part, whole),
{
    lemma_magnitude_order(0, ordinal(whole.bits) as nat);
    lemma_magnitude_order(ordinal(whole.bits) as nat, 0);
    lemma_magnitude_order(ordinal(part.bits) as nat, ordinal(whole.bits) as nat);
    if whole.value() > 0 {
        let num = part.value() * one_unit();
        let den = whole.value();
        lemma_nearest_exists(num, den);
        lemma_one();
        assert(num <= den * one_unit()) by (nonlinear_arith)
            requires
                num == part.value() * one_unit(),
                part.value() <= den,
        ;
        lemma_rounding_bounded(num, den, nearest(num, den), ONE_BITS as nat);
    }
}

/// A candidate's score is their summed confidence on the topic, as a share of the
/// largest sum that a candidate has.
pub proof fn a_score_is_a_share_of_the_largest_sum(
    p: Seq<SkillContributionView>,
    topic: Seq<char>,
    c: int,
) -> (largest: Double)
    requires
        in_range(p),
        0 <= c < ownership(p, topic).candidates.len(),
    ensures
        is_largest(amounts_on(p, topic), ownership(p, topic).candidates, largest),
        is_share(
            ownership(p, topic).candidates[c].score,
            total(contributed(p, ownership(p, topic).candidates[c].author, topic)),
            largest,
        ),
        forall|d: int|
            0 <= d < ownership(p, topic).candidates.len() ==> is_share(
                (#[trigger] ownership(p, topic).candidates[d]).score,
                total(contributed(p, ownership(p, topic).candidates[d].author, topic)),
                largest,
            ),
{
    let s = ownership(p, topic).candidates;
    let plain = unranked(p, topic);
    let names = listed(owners_of(p, topic));
    let top = strongest(p, names, topic);
    let amounts = amounts_on(p, topic);
    lemma_ownership_sorted(p, topic);
    lemma_owners_listed(p, topic);
    lemma_strongest(p, names, topic);
    assert forall|d: int| 0 <= d < s.len() implies is_share(
        (#[trigger] s[d]).score,
        total(contributed(p, s[d].author, topic)),
        top,
    ) && amounts(s[d].author).value() <= top.value() by {
        assert(s.contains(s[d]));
        assert(plain.contains(s[d]));
        let k = choose|k: int| 0 <= k < plain.len() && plain[k] == s[d];
        assert(s[d].author == names[k]);
        lemma_weight_total(p, names[k], topic);
        lemma_weight_bounded(p, names[k], topic);
        assert(ordinal(weight(p, names[k], topic).bits) <= ordinal(top.bits));
        lemma_share(weight(p, names[k], topic), top);
        lemma_magnitude_order(
            ordinal(weight(p, names[k], topic).bits) as nat,
            ordinal(top.bits) as nat,
        );
    }
    assert(exists|d: int| 0 <= d < s.len() && amounts((#[trigger] s[d]).author).value()
        == top.value()) by {
        lemma_magnitude_order(0, ordinal(top.bits) as nat);
        if ordinal(top.bits) > 0 {
            let m = choose|m: int|
                0 <= m < names.len() && weight(p, #[trigger] names[m], topic) == top;
            assert(plain.contains(plain[m]));
            assert(s.contains(plain[m]));
            let d = choose|d: int| 0 <= d < s.len() && s[d] == plain[m];
            lemma_weight_total(p, names[m], topic);
            assert(amounts(s[d].author).value() == top.value());
        } else {
            assert(amounts(s[c].author).value() == top.value());
        }
    }
    top
}

/// More summed confidence never scores less, and scores more where the two shares
/// of the largest sum are a double apart: whoever contributed more then comes first.
pub proof fn more_contributed_ranks_higher(
    p: Seq<SkillContributionView>,
    topic: Seq<char>,
    c: int,
    d: int,
    apart: nat,
)
    requires
        in_range(p),
        0 <= c < ownership(p, topic).candidates.len(),
        0 <= d < ownership(p, topic).candidates.len(),
        total(contributed(p, ownership(p, topic).candidates[c].author, topic)).value() > total(
            contributed(p, ownership(p, topic).candidates[d].author, topic),
        ).value(),
    ensures
        ({
            let s = ownership(p, topic).candidates;
            let more = total(contributed(p, s[c].author, topic)).value();
            let less = total(contributed(p, s[d].author, topic)).value();
            &&& s[c].score.bits >= s[d].score.bits
            &&& forall|largest: Double|
                is_largest(amounts_on(p, topic), s, largest) && less * one_unit()
                    <= #[trigger] largest.value() * magnitude(apart) && largest.value() * magnitude(
                    apart + 1,
                ) <= more * one_unit() ==> s[c].score.bits > s[d].score.bits && c < d
        }),
{
    let s = ownership(p, topic).candidates;
    let more = total(contributed(p, s[c].author, topic)).value();
    let less = total(contributed(p, s[d].author, topic)).value();
    let top = a_score_is_a_share_of_the_largest_sum(p, topic, c);
    let amounts = amounts_on(p, topic);
    assert(amounts(s[c].author).value() <= top.value());
    let den = top.value();
    let high = s[c].score.bits as nat;
    let low = s[d].score.bits as nat;
    assert(is_share(s[d].score, total(contributed(p, s[d].author, topic)), top));
    assert(less * one_unit() <= more * one_unit()) by (nonlinear_arith)
        requires
            less <= more,
    ;
    lemma_rounding_monotone(less * one_unit(), more * one_unit(), den, low, high);
    lemma_one();
    assert(more * one_unit() <= den * one_unit()) by (nonlinear_arith)
        requires
            more <= den,
    ;
    lemma_rounding_bounded(more * one_unit(), den, high, ONE_BITS as nat);
    assert forall|largest: Double|
        is_largest(amounts, s, largest) && less * one_unit() <= #[trigger] largest.value()
            * magnitude(apart) && largest.value() * magnitude(apart + 1) <= more * one_unit() implies
        s[c].score.bits > s[d].score.bits && c < d by {
        let x = choose|x: int|
            0 <= x < s.len() && amounts((#[trigger] s[x]).author).value() == largest.value();
        let y = choose|y: int|
            0 <= y < s.len() && amounts((#[trigger] s[y]).author).value() == top.value();
        assert(amounts(s[x].author).value() <= top.value());
        assert(amounts(s[y].author).value() <= largest.value());
        assert(largest.value() == den);
        lemma_rounding_bounded(less * one_unit(), den, low, apart);
        lemma_rounding_at_least(more * one_unit(), den, high, apart + 1);
        if d < c {
            owners_come_best_first(p, topic, d, c);
        }
    }
}

proof fn lemma_rounding_monotone(less: nat, more: nat, den: nat, low: nat, high: nat)
    requires
        den > 0,
        less <= more,
        rounds_to(less, den, low),
        rounds_to(more, den, high),
    ensures
        low <= high,
{
    if low > high {
        let a = den * (magnitude((low - 1) as nat) + magnitude(low));
        let b = den * (magnitude(high) + magnitude(high + 1));
        lemma_magnitude_order(high, (low - 1) as nat);
        lemma_magnitude_order(high + 1, low);
        assert(b <= a) by (nonlinear_arith)
            requires
                a == den * (magnitude((low - 1) as nat) + magnitude(low)),
                b == den * (magnitude(high) + magnitude(high + 1)),
                magnitude(high) <= magnitude((low - 1) as nat),
                magnitude(high + 1) <= magnitude(low),
        ;
        if high + 1 == low {
        } else {
            lemma_magnitude_monotone(high, (low - 1) as nat);
            assert(b < a) by (nonlinear_arith)
                requires
                    den > 0,
                    a == den * (magnitude((low - 1) as nat) + magnitude(low)),
                    b == den * (magnitude(high) + magnitude(high + 1)),
                    magnitude(high) < magnitude((low - 1) as nat),
                    magnitude(high + 1) <= magnitude(low),
            ;
        }
    }
}

/// An index holds an ownership for each topic that a contribution names, one per
/// topic, and it is that topic's ranking.
pub proof fn an_index_holds_every_ownership(p: Seq<SkillContributionView>, topic: Seq<char>)
    ensures
        ({
            let all = MessageSkillBuilder.index_spec(p).ownerships;
            &&& (exists|k: int| 0 <= k < all.len() && #[trigger] all[k] == ownership(p, topic))
                <==> exists|i: int| 0 <= i < p.len() && (#[trigger] p[i]).topics.contains(topic)
            &&& forall|k: int| 0 <= k < all.len() ==> #[trigger] all[k] == ownership(p, all[k].topic)
            &&& forall|k: int, n: int| 0 <= k < n < all.len() ==> precedes(all[k].topic, all[n].topic)
        }),
{
    let all = MessageSkillBuilder.index_spec(p).ownerships;
    let topics = listed(all_topics(p));
    lemma_topics_finite(p);
    lemma_listable(all_topics(p));
    assert(all.len() == topics.len());
    assert forall|k: int| 0 <= k < all.len() implies #[trigger] all[k] == ownership(
        p,
        all[k].topic,
    ) && all[k].topic == topics[k] by {}
    assert(ownership(p, topic).topic == topic);
    if exists|i: int| 0 <= i < p.len() && (#[trigger] p[i]).topics.contains(topic) {
        let i = choose|i: int| 0 <= i < p.len() && (#[trigger] p[i]).topics.contains(topic);
        assert(touches(p, p[i].author, topic));
        assert(topics.contains(topic));
        let k = choose|k: int| 0 <= k < topics.len() && topics[k] == topic;
        assert(all[k] == ownership(p, topic));
    }
    if exists|k: int| 0 <= k < all.len() && #[trigger] all[k] == ownership(p, topic) {
        let k = choose|k: int| 0 <= k < all.len() && #[trigger] all[k] == ownership(p, topic);
        assert(topics[k] == topic);
        assert(topics.contains(topic));
        let a = choose|a: Seq<char>| touches(p, a, topic);
        let i = choose|i: int|
            0 <= i < p.len() && (#[trigger] p[i]).author == a && p[i].topics.contains(topic);
        assert(p[i].topics.contains(topic));
    }
    assert forall|k: int, n: int| 0 <= k < n < all.len() implies precedes(
        all[k].topic,
        all[n].topic,
    ) by {
        assert(precedes(topics[k], topics[n]));
    }
}

/// The candidates on a topic are those with a contribution that names it, one per
/// author, each under the name of their last contribution.
pub proof fn candidates_are_who_contributed(
    p: Seq<SkillContributionView>,
    topic: Seq<char>,
    author: Seq<char>,
)
    ensures
        ({
            let s = ownership(p, topic).candidates;
            &&& (exists|c: int| 0 <= c < s.len() && (#[trigger] s[c]).author == author)
                <==> exists|i: int|
                0 <= i < p.len() && (#[trigger] p[i]).author == author && p[i].topics.contains(
                    topic,
                )
            &&& forall|c: int, d: int| 0 <= c < d < s.len() ==> s[c].author != s[d].author
            &&& forall|c: int, i: int|
                #![trigger s[c], p[i]]
                0 <= c < s.len() && 0 <= i < p.len() && p[i].author == s[c].author && (forall|
                    j: int,
                |
                    i < j < p.len() ==> (#[trigger] p[j]).author != s[c].author)
                    ==> s[c].display_name == p[i].display_name
        }),
{
    let s = ownership(p, topic).candidates;
    let plain = unranked(p, topic);
    let names = listed(owners_of(p, topic));
    owners_are_contributors(p, topic, author);
    lemma_owners_listed(p, topic);
    lemma_ownership_sorted(p, topic);
    lemma_ranked_distinct(p, topic);
    assert forall|c: int, i: int|
        #![trigger s[c], p[i]]
        0 <= c < s.len() && 0 <= i < p.len() && p[i].author == s[c].author && (forall|j: int|
            i < j < p.len() ==> (#[trigger] p[j]).author != s[c].author) implies s[c].display_name
        == p[i].display_name by {
        assert(s.contains(s[c]));
        assert(plain.contains(s[c]));
        let k = choose|k: int| 0 <= k < plain.len() && plain[k] == s[c];
        assert(names[k] == s[c].author);
        lemma_last_name(p, s[c].author, i);
    }
}

/// Nobody is a candidate twice.
proof fn lemma_ranked_distinct(p: Seq<SkillContributionView>, topic: Seq<char>)
    ensures
        forall|c: int, d: int|
            0 <= c < d < ownership(p, topic).candidates.len() ==> ownership(
                p,
                topic,
            ).candidates[c].author != ownership(p, topic).candidates[d].author,
{
    broadcast use vstd::seq_lib::group_to_multiset_ensures;

    let s = ownership(p, topic).candidates;
    let plain = unranked(p, topic);
    let names = listed(owners_of(p, topic));
    lemma_owners_listed(p, topic);
    lemma_ownership_sorted(p, topic);
    let before = |a: ExpertCandidateView, b: ExpertCandidateView|
        ranks_before(a, b);
    lemma_ranking_order();
    let ok = |c: ExpertCandidateView| c.score.in_unit();
    assert(all_ok(plain, ok)) by {
        assert forall|i: int| 0 <= i < plain.len() implies ok(#[trigger] plain[i]) by {
            assert(plain.contains(plain[i]));
            assert(s.contains(plain[i]));
            let c = choose|c: int| 0 <= c < s.len() && s[c] == plain[i];
            assert(ok(s[c]));
        }
    }
    lemma_stable_sorted(plain, before, ok);
    assert(s.to_multiset() == plain.to_multiset());
    assert(plain.no_duplicates()) by {
        assert forall|i: int, j: int| 0 <= i < plain.len() && 0 <= j < plain.len() && i
            != j implies plain[i] != plain[j] by {
            lemma_precedes_irreflexive(names[i]);
            if i < j {
                assert(precedes(names[i], names[j]));
            } else {
                assert(precedes(names[j], names[i]));
            }
            assert(plain[i].author == names[i]);
            assert(plain[j].author == names[j]);
        }
    }
    plain.lemma_multiset_has_no_duplicates();
    s.lemma_multiset_has_no_duplicates_conv();
    assert forall|c: int, d: int| 0 <= c < d < s.len() implies s[c].author != s[d].author by {
        assert(s.contains(s[c]));
        assert(s.contains(s[d]));
        let i = choose|i: int| 0 <= i < plain.len() && plain[i] == s[c];
        let j = choose|j: int| 0 <= j < plain.len() && plain[j] == s[d];
        assert(names[i] == s[c].author);
        assert(names[j] == s[d].author);
        assert(s[c] != s[d]);
    }
}

} // verus!
