//! Laws of the single decisions: scopes, routes, ids, settings, migrations.

use crate::double::Double;
use crate::github::model::item_conversation;
use crate::github::model::item_message_id;
use crate::github::model::kind_tag;
use crate::github::model::repo_prefix;
use crate::github::model::GitHubItemView;
use crate::laws::versions::lacks;
use crate::laws::versions::lemma_before_mark;
use crate::laws::versions::lemma_suffix;
use crate::model::projection::Intent;
use crate::model::projection::ProjectionView;
use crate::model::routing::ConsumerKind;
use crate::model::routing::RoutingRule;
use crate::ordered::is_ascending;
use crate::ordered::lemma_listable;
use crate::provider::routing::default_rule_set;
use crate::provider::routing::rule_route;
use crate::provider::routing::rule_target;
use crate::provider::scope::catalog;
use crate::provider::scope::catalog_scope;
use crate::provider::scope::component_of;
use crate::provider::scope::named_components;
use crate::provider::scope::without;
use crate::provider::warmup::with_intent;
use crate::storage::first_pending;
use vstd::prelude::*;

verus! {

/// Every component that a keyword names is in the catalog.
proof fn lemma_component_in_catalog(keyword: Seq<char>)
    ensures
        component_of(keyword) is Some ==> catalog().contains(component_of(keyword)->Some_0),
{
    let c = catalog();
    assert(c[0] == "auth-sdk"@);
    assert(c[1] == "oauth2"@);
    assert(c[2] == "token-refresh"@);
    assert(c[3] == "web-ui"@);
    assert(c[4] == "analytics"@);
    assert(c[5] == "billing"@);
}

proof fn lemma_without(items: Seq<Seq<char>>, set: Set<Seq<char>>, x: Seq<char>)
    ensures
        without(items, set).contains(x) <==> items.contains(x) && !set.contains(x),
    decreases items.len(),
{
    if items.len() > 0 {
        let front = items.drop_last();
        let before = without(front, set);
        let all = without(items, set);
        lemma_without(front, set, x);
        if items.contains(x) {
            let i = choose|i: int| 0 <= i < items.len() && items[i] == x;
            if i < front.len() {
                assert(front[i] == x);
            }
        }
        if front.contains(x) {
            let i = choose|i: int| 0 <= i < front.len() && front[i] == x;
            assert(items[i] == x);
        }
        assert(items[items.len() - 1] == items.last());
        if before.contains(x) {
            let i = choose|i: int| 0 <= i < before.len() && before[i] == x;
            assert(all[i] == x);
        }
        if all.contains(x) {
            let i = choose|i: int| 0 <= i < all.len() && all[i] == x;
            if i < before.len() {
                assert(before[i] == x);
            }
        }
        if !set.contains(items.last()) {
            assert(all[before.len() as int] == items.last());
        }
    }
}

/// A scope splits the catalog: each component is loaded or ignored and not both,
/// nothing else is either, and what is loaded comes in ascending order.
pub proof fn a_scope_splits_the_catalog(
    conversation: Seq<char>,
    keywords: Seq<Seq<char>>,
    confidences: Seq<Double>,
    component: Seq<char>,
)
    ensures
        ({
            let scope = catalog_scope(conversation, keywords, confidences);
            &&& is_ascending(scope.load)
            &&& catalog().contains(component) <==> scope.load.contains(component)
                || scope.ignore.contains(component)
            &&& !(scope.load.contains(component) && scope.ignore.contains(component))
            &&& scope.load.contains(component) <==> named_components(keywords).contains(component)
        }),
{
    let set = named_components(keywords);
    let known = catalog().to_set();
    vstd::seq_lib::seq_to_set_is_finite(catalog());
    assert forall|c: Seq<char>| set.contains(c) implies known.contains(c) by {
        let i = choose|i: int|
            0 <= i < keywords.len() && component_of(#[trigger] keywords[i]) == Some(c);
        lemma_component_in_catalog(keywords[i]);
    }
    vstd::set_lib::lemma_set_subset_finite(known, set);
    lemma_listable(set);
    lemma_without(catalog(), set, component);
    if set.contains(component) {
        assert(known.contains(component));
    }
}

/// A scope's confidence lies in `0.0..=1.0`.
pub proof fn a_scope_is_in_range(
    conversation: Seq<char>,
    keywords: Seq<Seq<char>>,
    confidences: Seq<Double>,
)
    ensures
        catalog_scope(conversation, keywords, confidences).confidence.in_unit(),
{
}

/// A warm-up lists a message under an intent exactly if a projection of it has
/// that intent.
pub proof fn a_warmup_groups_by_intent(
    projections: Seq<ProjectionView>,
    intent: Intent,
    id: Seq<char>,
)
    ensures
        with_intent(projections, intent).contains(id) <==> exists|i: int|
            0 <= i < projections.len() && (#[trigger] projections[i]).intent == intent
                && projections[i].message_id == id,
    decreases projections.len(),
{
    if projections.len() > 0 {
        let front = projections.drop_last();
        let before = with_intent(front, intent);
        let all = with_intent(projections, intent);
        a_warmup_groups_by_intent(front, intent, id);
        if exists|i: int|
            0 <= i < projections.len() && (#[trigger] projections[i]).intent == intent
                && projections[i].message_id == id {
            let i = choose|i: int|
                0 <= i < projections.len() && (#[trigger] projections[i]).intent == intent
                    && projections[i].message_id == id;
            if i < front.len() {
                assert(front[i] == projections[i]);
            }
        }
        if exists|i: int|
            0 <= i < front.len() && (#[trigger] front[i]).intent == intent && front[i].message_id
                == id {
            let i = choose|i: int|
                0 <= i < front.len() && (#[trigger] front[i]).intent == intent
                    && front[i].message_id == id;
            assert(projections[i] == front[i]);
        }
        assert(projections[projections.len() - 1] == projections.last());
        if before.contains(id) {
            let i = choose|i: int| 0 <= i < before.len() && before[i] == id;
            assert(all[i] == id);
        }
        if all.contains(id) {
            let i = choose|i: int| 0 <= i < all.len() && all[i] == id;
            if i < before.len() {
                assert(before[i] == id);
            }
        }
        if projections.last().intent == intent {
            assert(all[before.len() as int] == projections.last().message_id);
        }
    }
}

/// A confidence below the threshold goes to a human whatever the rules say, and
/// only such a one is escalated.
pub proof fn low_confidence_escalates(
    rules: Seq<RoutingRule>,
    threshold: Double,
    default_target: ConsumerKind,
    projection: ProjectionView,
)
    ensures
        ({
            let decision = rule_route(rules, threshold, default_target, projection).0;
            &&& decision.escalated <==> projection.confidence.less_spec(threshold)
            &&& decision.escalated ==> decision.target == ConsumerKind::Human
            &&& !decision.escalated ==> decision.target == rule_target(
                rules,
                projection.intent,
                default_target,
            )
        }),
{
}

/// A trace explains its decision: it is about the same message, and its last step
/// names the decision's target.
pub proof fn a_trace_explains_its_decision(
    rules: Seq<RoutingRule>,
    threshold: Double,
    default_target: ConsumerKind,
    projection: ProjectionView,
)
    ensures
        ({
            let routed = rule_route(rules, threshold, default_target, projection);
            &&& routed.0.message_id == projection.message_id
            &&& routed.1.message_id == projection.message_id
            &&& routed.1.steps.len() > 0
            &&& routed.1.steps.last().matched
            &&& routed.1.steps.last().resulting_target == Some(routed.0.target)
        }),
{
}

/// The first rule for an intent decides; where there is none, the default target
/// does.
pub proof fn the_first_rule_wins(
    rules: Seq<RoutingRule>,
    intent: Intent,
    default_target: ConsumerKind,
    i: int,
)
    requires
        forall|j: int| 0 <= j < i && j < rules.len() ==> (#[trigger] rules[j]).intent != intent,
        0 <= i <= rules.len(),
        i < rules.len() ==> rules[i].intent == intent,
    ensures
        rule_target(rules, intent, default_target) == if i < rules.len() {
            rules[i].target
        } else {
            default_target
        },
    decreases rules.len(),
{
    if rules.len() > 0 && i > 0 {
        let rest = rules.drop_first();
        assert(rules[0].intent != intent);
        assert forall|j: int| 0 <= j < i - 1 && j < rest.len() implies (
        #[trigger] rest[j]).intent != intent by {
            assert(rest[j] == rules[j + 1]);
        }
        the_first_rule_wins(rest, intent, default_target, i - 1);
    }
}

/// The default rules send every intent somewhere, whatever the default target.
pub proof fn the_default_rules_cover_every_intent(intent: Intent, default_target: ConsumerKind)
    ensures
        rule_target(default_rule_set(), intent, default_target) == match intent {
            Intent::Question => ConsumerKind::Human,
            Intent::Decision => ConsumerKind::Agent,
            Intent::Proposal => ConsumerKind::GitHub,
            Intent::Issue => ConsumerKind::GitHub,
            Intent::Task => ConsumerKind::WorklaneJob,
            Intent::Social => ConsumerKind::Human,
        },
{
    let rules = default_rule_set();
    let i: int = match intent {
        Intent::Question => 0,
        Intent::Decision => 1,
        Intent::Proposal => 2,
        Intent::Issue => 3,
        Intent::Task => 4,
        Intent::Social => 5,
    };
    the_first_rule_wins(rules, intent, default_target, i);
}

/// An item's message id rests on its repository, kind and id alone, and a comment
/// shares the conversation of the issue it belongs to.
pub proof fn github_ids_are_stable(a: GitHubItemView, b: GitHubItemView)
    ensures
        a.repo == b.repo && a.kind == b.kind && a.id == b.id ==> item_message_id(a)
            == item_message_id(b),
        a.repo == b.repo && a.number == b.number ==> item_conversation(a) == item_conversation(b),
{
}

/// An item's message id after its repository fixes the kind and the id.
proof fn lemma_item_tail(a: GitHubItemView, b: GitHubItemView)
    requires
        kind_tag(a.kind) + ":"@ + a.id == kind_tag(b.kind) + ":"@ + b.id,
    ensures
        a.kind == b.kind,
        a.id == b.id,
{
    reveal_strlit(":");
    reveal_strlit("issue");
    reveal_strlit("pull-request");
    reveal_strlit("comment");
    assert(":"@ =~= seq![':']);
    lemma_before_mark(':', kind_tag(a.kind), a.id, kind_tag(b.kind), b.id);
    assert(kind_tag(a.kind)[0] == kind_tag(b.kind)[0]);
}

/// Within a repository, different items have different message ids.
pub proof fn github_ids_tell_items_apart(a: GitHubItemView, b: GitHubItemView)
    requires
        a.repo == b.repo,
        item_message_id(a) == item_message_id(b),
    ensures
        a.kind == b.kind,
        a.id == b.id,
{
    let start = repo_prefix(a.repo) + ":"@;
    let x = kind_tag(a.kind) + ":"@ + a.id;
    let y = kind_tag(b.kind) + ":"@ + b.id;
    assert(item_message_id(a) =~= start + x);
    assert(item_message_id(b) =~= start + y);
    lemma_suffix(start, x, y);
    lemma_item_tail(a, b);
}

/// Items of different repositories have different message ids, as long as owners
/// hold no slash and names no colon.
pub proof fn github_ids_tell_repositories_apart(a: GitHubItemView, b: GitHubItemView)
    requires
        lacks(a.repo.owner, '/'),
        lacks(b.repo.owner, '/'),
        lacks(a.repo.name, ':'),
        lacks(b.repo.name, ':'),
        item_message_id(a) == item_message_id(b),
    ensures
        a.repo == b.repo,
        a.kind == b.kind,
        a.id == b.id,
{
    reveal_strlit(":");
    reveal_strlit("/");
    assert(":"@ =~= seq![':']);
    assert("/"@ =~= seq!['/']);
    let p = kind_tag(a.kind) + ":"@ + a.id;
    let q = kind_tag(b.kind) + ":"@ + b.id;
    let x = a.repo.name + seq![':'] + p;
    let y = b.repo.name + seq![':'] + q;
    assert(item_message_id(a) =~= "github:"@ + (a.repo.owner + seq!['/'] + x));
    assert(item_message_id(b) =~= "github:"@ + (b.repo.owner + seq!['/'] + y));
    lemma_suffix("github:"@, a.repo.owner + seq!['/'] + x, b.repo.owner + seq!['/'] + y);
    lemma_before_mark('/', a.repo.owner, x, b.repo.owner, y);
    lemma_before_mark(':', a.repo.name, p, b.repo.name, q);
    lemma_item_tail(a, b);
}

/// Clamping is done once: a clamped score is in range and stays as it is.
pub proof fn clamping_is_idempotent(value: Double)
    ensures
        value.clamp_unit_spec().in_unit(),
        value.clamp_unit_spec().clamp_unit_spec() == value.clamp_unit_spec(),
        value.in_unit() ==> value.clamp_unit_spec() == value,
{
}

/// A database at the newest version has nothing pending, a fresh one everything.
pub proof fn migrations_run_once(steps: nat)
    ensures
        first_pending(steps as int, steps) == steps,
        first_pending(0, steps) == 0,
{
}

} // verus!
