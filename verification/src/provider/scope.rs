//! A deterministic, catalog-based scope projector.
//!
//! It maps a session's topics and entities to components of a fixed catalog,
//! loads the matched ones and ignores the rest.

use crate::double::lemma_integer_positive;
use crate::double::lemma_scaled_natural;
use crate::double::lemma_sum_bounded;
use crate::double::total;
use crate::double::Double;
use crate::double::ONE_BITS;
use crate::model::message::ConversationId;
use crate::model::projection::Confidence;
use crate::model::projection::Projection;
use crate::model::projection::ProjectionView;
use crate::model::projector::ScopeProjector;
use crate::model::scope::Component;
use crate::model::scope::Scope;
use crate::model::scope::ScopeView;
use crate::model::seqs::views;
use crate::ordered::insert_text;
use crate::ordered::is_ascending;
use crate::ordered::keys;
use crate::ordered::lemma_listed;
use crate::ordered::listed;
use crate::ordered::locate;
use crate::text::cat3;
use crate::text::joined;
use crate::text::lowercase;
use crate::text::same;
use crate::text::to_lower;
use vstd::prelude::*;

verus! {

/// The components the scoper knows about.
pub open spec fn catalog() -> Seq<Seq<char>> {
    seq![
        "auth-sdk"@,
        "oauth2"@,
        "token-refresh"@,
        "web-ui"@,
        "analytics"@,
        "billing"@,
    ]
}

/// The component of a lower-case keyword, if any.
pub open spec fn component_of(keyword: Seq<char>) -> Option<Seq<char>> {
    if keyword == "auth"@ || keyword == "sdk"@ {
        Some("auth-sdk"@)
    } else if keyword == "oauth"@ || keyword == "oauth2"@ {
        Some("oauth2"@)
    } else if keyword == "refresh-token"@ {
        Some("token-refresh"@)
    } else if keyword == "web"@ || keyword == "ui"@ || keyword == "web-ui"@ {
        Some("web-ui"@)
    } else if keyword == "analytics"@ {
        Some("analytics"@)
    } else if keyword == "billing"@ {
        Some("billing"@)
    } else {
        None
    }
}

/// The components that the lower-case keywords name.
pub open spec fn named_components(keywords: Seq<Seq<char>>) -> Set<Seq<char>> {
    Set::new(
        |c: Seq<char>|
            exists|i: int| 0 <= i < keywords.len() && component_of(#[trigger] keywords[i]) == Some(c),
    )
}

/// The items of the catalog outside a set, in catalog order.
pub open spec fn without(items: Seq<Seq<char>>, set: Set<Seq<char>>) -> Seq<Seq<char>>
    decreases items.len(),
{
    if items.len() == 0 {
        Seq::empty()
    } else {
        let before = without(items.drop_last(), set);
        if set.contains(items.last()) {
            before
        } else {
            before.push(items.last())
        }
    }
}

/// The mean of the confidences, or zero where there is none.
pub open spec fn mean(confidences: Seq<Double>) -> Double {
    if confidences.len() == 0 {
        (Double { bits: 0 }).clamp_unit_spec()
    } else {
        total(confidences).quotient_spec(
            (Double { bits: ONE_BITS }).scaled_spec(confidences.len()),
        ).clamp_unit_spec()
    }
}

/// Why the given components are loaded.
pub open spec fn scope_reason(load: Seq<Seq<char>>) -> Seq<char> {
    if load.len() == 0 {
        "No known components detected for this session."@
    } else {
        "Session focuses on "@ + joined(load, ", "@) + "."@
    }
}

/// The scope of a session with the given lower-case keywords and confidences.
pub open spec fn catalog_scope(
    conversation: Seq<char>,
    keywords: Seq<Seq<char>>,
    confidences: Seq<Double>,
) -> ScopeView {
    let load = listed(named_components(keywords));
    ScopeView {
        conversation,
        load,
        ignore: without(catalog(), named_components(keywords)),
        reason: scope_reason(load),
        confidence: mean(confidences),
    }
}

/// The topics and entities of the projections, in order.
pub open spec fn session_keywords(projections: Seq<ProjectionView>) -> Seq<Seq<char>>
    decreases projections.len(),
{
    if projections.len() == 0 {
        Seq::empty()
    } else {
        session_keywords(projections.drop_last()) + projections.last().topics
            + projections.last().entities
    }
}

/// The keywords in lower case.
pub open spec fn lowered(keywords: Seq<Seq<char>>) -> Seq<Seq<char>> {
    keywords.map_values(|k: Seq<char>| lowercase(k))
}

/// The confidences of the projections.
pub open spec fn confidences(projections: Seq<ProjectionView>) -> Seq<Double> {
    projections.map_values(|p: ProjectionView| p.confidence)
}

/// The component of a keyword in any case, if any.
pub fn component_for(keyword: &str) -> (r: Option<&'static str>)
    ensures
        match r {
            Some(c) => component_of(lowercase(keyword@)) == Some(c@),
            None => component_of(lowercase(keyword@)) is None,
        },
{
    component_for_lowered(to_lower(keyword).as_str())
}

/// The component of a lower-case keyword, if any.
pub fn component_for_lowered(keyword: &str) -> (r: Option<&'static str>)
    ensures
        match r {
            Some(c) => component_of(keyword@) == Some(c@),
            None => component_of(keyword@) is None,
        },
{
    if same(keyword, "auth") || same(keyword, "sdk") {
        Some("auth-sdk")
    } else if same(keyword, "oauth") || same(keyword, "oauth2") {
        Some("oauth2")
    } else if same(keyword, "refresh-token") {
        Some("token-refresh")
    } else if same(keyword, "web") || same(keyword, "ui") || same(keyword, "web-ui") {
        Some("web-ui")
    } else if same(keyword, "analytics") {
        Some("analytics")
    } else if same(keyword, "billing") {
        Some("billing")
    } else {
        None
    }
}

/// The catalog.
fn catalog_list() -> (r: Vec<&'static str>)
    ensures
        r@.map_values(|k: &str| k@) == catalog(),
{
    let r: Vec<&'static str> = vec![
        "auth-sdk",
        "oauth2",
        "token-refresh",
        "web-ui",
        "analytics",
        "billing",
    ];
    assert(r@.map_values(|k: &str| k@) =~= catalog());
    r
}

/// Joins component names.
pub(crate) fn join_components(items: &Vec<Component>, separator: &str) -> (r: String)
    ensures
        r@ == joined(views(items@), separator@),
{
    let ghost all = views(items@);
    let mut out = String::new();
    let mut i: usize = 0;
    assert(out@ =~= joined(all.take(0), separator@));
    while i < items.len()
        invariant
            i <= items@.len(),
            all == views(items@),
            out@ == joined(all.take(i as int), separator@),
        decreases items@.len() - i,
    {
        let ghost before = out@;
        if i > 0 {
            out.append(separator);
        }
        out.append(items[i].0.as_str());
        proof {
            assert(all.take(i + 1).drop_last() =~= all.take(i as int));
            assert(all.take(i + 1).last() == items@[i as int]@);
            assert(out@ =~= joined(all.take(i + 1), separator@));
        }
        i = i + 1;
    }
    assert(all.take(i as int) =~= all);
    out
}

/// The mean of the confidences.
fn mean_of(scores: &Vec<Confidence>) -> (r: Confidence)
    ensures
        r@ == mean(views(scores@)),
{
    let ghost all = views(scores@);
    let mut sum = Double::from_bits(0);
    let mut i: usize = 0;
    while i < scores.len()
        invariant
            i <= scores@.len(),
            all == views(scores@),
            sum == total(all.take(i as int)),
            sum.is_score_sum(),
        decreases scores@.len() - i,
    {
        let score = scores[i].get();
        proof {
            assert(all.take(i + 1).drop_last() =~= all.take(i as int));
            assert(all.take(i + 1).last() == score);
            lemma_sum_bounded(sum, score);
        }
        sum = sum.plus(score);
        i = i + 1;
    }
    assert(all.take(i as int) =~= all);
    if scores.len() == 0 {
        Confidence::new(Double::from_bits(0))
    } else {
        let one = Double::from_bits(ONE_BITS);
        let count: u64 = scores.len() as u64;
        proof {
            lemma_scaled_natural(one, count);
            lemma_integer_positive(count);
        }
        Confidence::new(sum.over(one.times(count)))
    }
}

/// A deterministic mock [`ScopeProjector`].
#[derive(Clone, Copy, Debug)]
pub struct MockScopeProjector;

impl MockScopeProjector {
    /// Creates a mock scope projector.
    pub fn new() -> (r: Self) {
        MockScopeProjector
    }

    /// The scope of a session from its keywords in lower case.
    pub fn scope_of_keywords(
        conversation: &ConversationId,
        keywords: &Vec<String>,
        confidences: &Vec<Confidence>,
    ) -> (r: Scope)
        ensures
            r@ == catalog_scope(conversation@, views(keywords@), views(confidences@)),
    {
        let ghost words = views(keywords@);
        let mut names: Vec<String> = Vec::new();
        let mut i: usize = 0;
        while i < keywords.len()
            invariant
                i <= keywords@.len(),
                words == views(keywords@),
                is_ascending(keys(names@)),
                forall|c: Seq<char>| #[trigger]
                    keys(names@).contains(c) <==> named_components(words.take(i as int)).contains(c),
            decreases keywords@.len() - i,
        {
            let ghost before = words.take(i as int);
            let ghost after = words.take(i + 1);
            let ghost held = keys(names@);
            let component = component_for_lowered(keywords[i].as_str());
            if let Some(name) = component {
                let text = name.to_string();
                insert_text(&mut names, &text);
            }
            proof {
                assert(after =~= before.push(words[i as int]));
                assert(words[i as int] == keywords@[i as int]@);
                assert forall|c: Seq<char>| #[trigger]
                    keys(names@).contains(c) <==> named_components(after).contains(c) by {
                    if named_components(before).contains(c) {
                        let k = choose|k: int|
                            0 <= k < before.len() && component_of(#[trigger] before[k]) == Some(c);
                        assert(after[k] == before[k]);
                    }
                    if named_components(after).contains(c) {
                        let k = choose|k: int|
                            0 <= k < after.len() && component_of(#[trigger] after[k]) == Some(c);
                        if k < i {
                            assert(before[k] == after[k]);
                        }
                    }
                    assert(after[i as int] == words[i as int]);
                    assert(held.contains(c) <==> named_components(before).contains(c));
                }
            }
            i = i + 1;
        }
        assert(words.take(i as int) =~= words);
        let ghost set = named_components(words);
        proof {
            lemma_listed(keys(names@), set);
        }
        let mut load: Vec<Component> = Vec::new();
        let mut n: usize = 0;
        while n < names.len()
            invariant
                n <= names@.len(),
                load@.len() == n,
                forall|j: int| 0 <= j < n ==> (#[trigger] load@[j])@ == names@[j]@,
            decreases names@.len() - n,
        {
            load.push(Component(names[n].clone()));
            n = n + 1;
        }
        assert(views(load@) =~= keys(names@));
        let all = catalog_list();
        let ghost known = catalog();
        let mut ignore: Vec<Component> = Vec::new();
        let mut k: usize = 0;
        assert(views(ignore@) =~= without(known.take(0), set));
        while k < all.len()
            invariant
                k <= all@.len(),
                known == all@.map_values(|c: &str| c@),
                is_ascending(keys(names@)),
                forall|c: Seq<char>| #[trigger] keys(names@).contains(c) <==> set.contains(c),
                views(ignore@) == without(known.take(k as int), set),
            decreases all@.len() - k,
        {
            proof {
                assert(known.take(k + 1).drop_last() =~= known.take(k as int));
                assert(known.take(k + 1).last() == all@[k as int]@);
            }
            let slot = locate(&names, all[k]);
            if !slot.found {
                let ghost before = ignore@;
                ignore.push(Component(all[k].to_string()));
                assert(views(ignore@) =~= views(before).push(all@[k as int]@));
            }
            k = k + 1;
        }
        assert(known.take(k as int) =~= known);
        let reason = if load.len() == 0 {
            "No known components detected for this session.".to_string()
        } else {
            cat3("Session focuses on ", join_components(&load, ", ").as_str(), ".")
        };
        Scope {
            conversation: conversation.clone(),
            load,
            ignore,
            reason,
            confidence: mean_of(confidences),
        }
    }
}

impl Default for MockScopeProjector {
    fn default() -> (r: Self) {
        MockScopeProjector
    }
}

impl ScopeProjector for MockScopeProjector {
    open spec fn scope_spec(
        &self,
        conversation: Seq<char>,
        projections: Seq<ProjectionView>,
    ) -> ScopeView {
        catalog_scope(
            conversation,
            lowered(session_keywords(projections)),
            confidences(projections),
        )
    }

    fn scope(&self, conversation: &ConversationId, projections: &[Projection]) -> (r: Scope) {
        let ghost all = views(projections@);
        let mut words: Vec<String> = Vec::new();
        let mut scores: Vec<Confidence> = Vec::new();
        let mut i: usize = 0;
        assert(views(words@) =~= lowered(session_keywords(all.take(0))));
        assert(views(scores@) =~= confidences(all.take(0)));
        while i < projections.len()
            invariant
                i <= projections@.len(),
                all == views(projections@),
                views(words@) == lowered(session_keywords(all.take(i as int))),
                views(scores@) == confidences(all.take(i as int)),
            decreases projections@.len() - i,
        {
            let projection = &projections[i];
            let ghost base = session_keywords(all.take(i as int));
            let ghost topics = projection@.topics;
            let ghost entities = projection@.entities;
            proof {
                assert(all.take(i + 1).drop_last() =~= all.take(i as int));
                assert(all.take(i + 1).last() == projection@);
            }
            let ghost held = views(scores@);
            scores.push(projection.confidence);
            proof {
                assert(views(scores@) =~= held.push(projection@.confidence));
                assert(views(scores@) =~= confidences(all.take(i + 1)));
            }
            let mut j: usize = 0;
            assert(base + topics.take(0) =~= base);
            while j < projection.topics.len()
                invariant
                    j <= projection.topics@.len(),
                    topics == views(projection.topics@),
                    views(words@) == lowered(base + topics.take(j as int)),
                decreases projection.topics@.len() - j,
            {
                let ghost before = views(words@);
                words.push(to_lower(projection.topics[j].0.as_str()));
                proof {
                    assert(topics[j as int] == projection.topics@[j as int]@);
                    assert(views(words@) =~= before.push(lowercase(topics[j as int])));
                    assert(topics.take(j + 1) =~= topics.take(j as int).push(topics[j as int]));
                    assert(base + topics.take(j + 1) =~= (base + topics.take(j as int)).push(
                        topics[j as int],
                    ));
                    assert(views(words@) =~= lowered(base + topics.take(j + 1)));
                }
                j = j + 1;
            }
            assert(topics.take(j as int) =~= topics);
            let ghost middle = base + topics;
            let mut k: usize = 0;
            assert(middle + entities.take(0) =~= middle);
            while k < projection.entities.len()
                invariant
                    k <= projection.entities@.len(),
                    entities == views(projection.entities@),
                    views(words@) == lowered(middle + entities.take(k as int)),
                decreases projection.entities@.len() - k,
            {
                let ghost before = views(words@);
                words.push(to_lower(projection.entities[k].0.as_str()));
                proof {
                    assert(entities[k as int] == projection.entities@[k as int]@);
                    assert(views(words@) =~= before.push(lowercase(entities[k as int])));
                    assert(middle + entities.take(k + 1) =~= (middle + entities.take(
                        k as int,
                    )).push(entities[k as int]));
                    assert(views(words@) =~= lowered(middle + entities.take(k + 1)));
                }
                k = k + 1;
            }
            assert(entities.take(k as int) =~= entities);
            i = i + 1;
        }
        assert(all.take(i as int) =~= all);
        MockScopeProjector::scope_of_keywords(conversation, &words, &scores)
    }
}

} // verus!
