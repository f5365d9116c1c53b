//! The deterministic providers.

use mirrorlane::double::Double;
use mirrorlane::model::cache::InMemoryProjectionCache;
use mirrorlane::model::message::Author;
use mirrorlane::model::message::AuthorId;
use mirrorlane::model::message::Conversation;
use mirrorlane::model::message::ConversationId;
use mirrorlane::model::message::MessageEnvelope;
use mirrorlane::model::message::MessageId;
use mirrorlane::model::message::Source;
use mirrorlane::model::projection::Confidence;
use mirrorlane::model::projection::Entity;
use mirrorlane::model::projection::Intent;
use mirrorlane::model::projection::Projection;
use mirrorlane::model::projection::Topic;
use mirrorlane::model::projector::DeveloperSnapshotBuilder;
use mirrorlane::model::projector::Projector;
use mirrorlane::model::projector::Router;
use mirrorlane::model::projector::RoutingHinter;
use mirrorlane::model::projector::ScopeProjector;
use mirrorlane::model::projector::SkillBuilder;
use mirrorlane::model::projector::WarmupBuilder;
use mirrorlane::model::routing::Consumer;
use mirrorlane::model::routing::ConsumerKind;
use mirrorlane::model::routing::RoutingDecision;
use mirrorlane::model::routing::RoutingRule;
use mirrorlane::model::scope::Component;
use mirrorlane::model::scope::Scope;
use mirrorlane::model::skill::ExpertCandidate;
use mirrorlane::model::skill::Participant;
use mirrorlane::model::skill::SessionDevelopers;
use mirrorlane::model::skill::SkillContribution;
use mirrorlane::model::skill::SkillIndex;
use mirrorlane::model::skill::SkillScore;
use mirrorlane::model::skill::TopicOwnership;
use mirrorlane::model::skill::TopicWeight;
use mirrorlane::provider::caching::CachingProjector;
use mirrorlane::provider::developer::SkillDeveloperSnapshotter;
use mirrorlane::provider::hint::SkillRoutingHinter;
use mirrorlane::provider::mock::detect_intent;
use mirrorlane::provider::mock::MockProjector;
use mirrorlane::provider::routing::RecordingConsumer;
use mirrorlane::provider::routing::RuleRouter;
use mirrorlane::provider::scope::component_for;
use mirrorlane::provider::scope::component_for_lowered;
use mirrorlane::provider::scope::MockScopeProjector;
use mirrorlane::provider::skill::MessageSkillBuilder;
use mirrorlane::provider::warmup::MockWarmupBuilder;
use mirrorlane::runtime::step::Step;
use mirrorlane::runtime::step::StepVersion;
use std::sync::atomic::AtomicUsize;
use std::sync::atomic::Ordering;
use std::sync::Arc;

fn d(x: f64) -> Double {
    Double::from_bits(x.to_bits())
}

fn value(x: Double) -> f64 {
    f64::from_bits(x.to_bits())
}

fn conversation() -> ConversationId {
    ConversationId("c-1".into())
}

fn message(body: &str) -> MessageEnvelope {
    MessageEnvelope {
        id: MessageId("m-1".into()),
        source: Source::Manual,
        author: Author {
            id: AuthorId("u-1".into()),
            display_name: "Dev".into(),
        },
        conversation: Conversation {
            id: conversation(),
            thread: None,
        },
        body: body.into(),
    }
}

fn projected(intent: Intent, topics: &[&str], entities: &[&str], confidence: f64) -> Projection {
    Projection {
        message_id: MessageId("m-1".into()),
        intent,
        topics: topics.iter().map(|t| Topic((*t).into())).collect(),
        entities: entities.iter().map(|e| Entity((*e).into())).collect(),
        confidence: Confidence::new(d(confidence)),
    }
}

fn candidate(author: &str, score: f64) -> ExpertCandidate {
    ExpertCandidate {
        author: AuthorId(author.into()),
        display_name: author.into(),
        score: SkillScore::new(d(score)),
    }
}

fn ownership(topic: &str, candidates: Vec<ExpertCandidate>) -> TopicOwnership {
    TopicOwnership {
        topic: Topic(topic.into()),
        candidates,
    }
}

struct CountingProjector {
    calls: Arc<AtomicUsize>,
}

impl Step for CountingProjector {
    type In = MessageEnvelope;
    type Out = Projection;
    type Memory = ();

    fn kind(&self) -> &'static str {
        "test.counting"
    }

    fn version(&self) -> StepVersion {
        StepVersion::new("counting:v1")
    }

    fn run(&mut self, message: &MessageEnvelope) -> Projection {
        self.calls.fetch_add(1, Ordering::SeqCst);
        Projection {
            message_id: message.id.clone(),
            intent: Intent::Social,
            topics: Vec::new(),
            entities: Vec::new(),
            confidence: Confidence::new(d(0.5)),
        }
    }
}

#[test]
fn caching_inner_runs_only_on_a_miss() {
    let calls = Arc::new(AtomicUsize::new(0));
    let inner = CountingProjector {
        calls: calls.clone(),
    };
    let mut projector = CachingProjector::new(inner, InMemoryProjectionCache::new(), "v1");
    assert_eq!(projector.kind(), "mirrorlane.projection.cached");
    assert_eq!(projector.version().as_str(), "v1");

    let first = projector.project(&message("hello"));
    let second = projector.project(&message("hello"));

    assert_eq!(calls.load(Ordering::SeqCst), 1, "inner invoked once");
    assert_eq!(first, second, "both calls return the same projection");
}

#[test]
fn caching_a_changed_version_recomputes() {
    let calls = Arc::new(AtomicUsize::new(0));
    let mut first = CachingProjector::new(
        CountingProjector {
            calls: calls.clone(),
        },
        InMemoryProjectionCache::new(),
        "v1",
    );
    first.project(&message("hello"));
    let mut second = CachingProjector::new(
        CountingProjector {
            calls: calls.clone(),
        },
        first.inner.cache,
        "v2",
    );
    second.project(&message("hello"));

    assert_eq!(
        calls.load(Ordering::SeqCst),
        2,
        "each version invokes the inner projector"
    );
}

#[test]
fn an_edited_message_misses() {
    let calls = Arc::new(AtomicUsize::new(0));
    let inner = CountingProjector {
        calls: calls.clone(),
    };
    let mut projector = CachingProjector::new(inner, InMemoryProjectionCache::new(), "v1");
    projector.project(&message("hello"));
    projector.project(&message("hello, edited"));
    assert_eq!(calls.load(Ordering::SeqCst), 2);
}

fn participant(author: &str) -> Participant {
    Participant {
        author: AuthorId(author.into()),
        display_name: author.into(),
    }
}

fn topics_of<'a>(developers: &'a SessionDevelopers, author: &str) -> &'a [TopicWeight] {
    &developers
        .developers
        .iter()
        .find(|d| d.author == AuthorId(author.into()))
        .expect("developer present")
        .topics
}

#[test]
fn topics_are_ranked_by_descending_weight() {
    let snapshotter = SkillDeveloperSnapshotter::new();
    let ownerships = vec![
        ownership("auth", vec![candidate("alice", 0.5)]),
        ownership("sdk", vec![candidate("alice", 1.0)]),
    ];
    let developers = snapshotter.build(&conversation(), &[participant("alice")], &ownerships);
    let topics = topics_of(&developers, "alice");
    assert_eq!(topics[0].topic, Topic("sdk".into()));
    assert_eq!(topics[1].topic, Topic("auth".into()));
}

#[test]
fn developers_are_ordered_by_author_id() {
    let snapshotter = SkillDeveloperSnapshotter::new();
    let ownerships = vec![ownership(
        "auth",
        vec![candidate("alice", 1.0), candidate("bob", 0.8)],
    )];
    let developers = snapshotter.build(
        &conversation(),
        &[participant("bob"), participant("alice")],
        &ownerships,
    );
    assert_eq!(developers.developers[0].author, AuthorId("alice".into()));
    assert_eq!(developers.developers[1].author, AuthorId("bob".into()));
}

#[test]
fn same_inputs_build_identical_result() {
    let snapshotter = SkillDeveloperSnapshotter::new();
    let ownerships = vec![ownership(
        "auth",
        vec![candidate("alice", 1.0), candidate("bob", 0.5)],
    )];
    let participants = [participant("alice"), participant("bob")];
    assert_eq!(
        snapshotter.build(&conversation(), &participants, &ownerships),
        snapshotter.build(&conversation(), &participants, &ownerships)
    );
}

#[test]
fn participant_owning_no_session_topic_has_empty_topics() {
    let snapshotter = SkillDeveloperSnapshotter::new();
    let ownerships = vec![ownership("auth", vec![candidate("alice", 1.0)])];
    let developers = snapshotter.build(
        &conversation(),
        &[participant("alice"), participant("carol")],
        &ownerships,
    );
    assert!(topics_of(&developers, "carol").is_empty());
    assert!(!topics_of(&developers, "alice").is_empty());
}

#[test]
fn equal_topic_weights_are_ordered_by_topic() {
    let snapshotter = SkillDeveloperSnapshotter::default();
    let ownerships = vec![
        ownership("sdk", vec![candidate("alice", 0.5), candidate("alice", 0.9)]),
        ownership("auth", vec![candidate("alice", 0.5)]),
    ];
    let developers = snapshotter.build(&conversation(), &[participant("alice")], &ownerships);
    let topics = topics_of(&developers, "alice");
    assert_eq!(topics[0].topic, Topic("auth".into()));
    assert_eq!(value(topics[1].weight), 0.5, "the first candidacy counts");
}

#[test]
fn strongest_across_topics_is_recommended_first() {
    let hinter = SkillRoutingHinter::new();
    let ownerships = vec![
        ownership("auth", vec![candidate("alice", 1.0), candidate("bob", 0.8)]),
        ownership("sdk", vec![candidate("alice", 0.6)]),
    ];
    let hint = hinter.hint(
        &projected(Intent::Issue, &["auth", "sdk"], &[], 0.9),
        &ownerships,
    );
    assert_eq!(hint.reviewers[0].author, AuthorId("alice".into()));
    assert_eq!(value(hint.reviewers[0].score.get()), 1.0);
    assert_eq!(value(hint.reviewers[1].score.get()), 0.8 / (1.0 + 0.6));
    assert_eq!(hint.human_hint.unwrap().author, AuthorId("alice".into()));
}

#[test]
fn unrelated_topics_do_not_leak_reviewers() {
    let hinter = SkillRoutingHinter::new();
    let ownerships = vec![
        ownership("auth", vec![candidate("alice", 1.0)]),
        ownership("billing", vec![candidate("carol", 1.0)]),
    ];
    let hint = hinter.hint(&projected(Intent::Issue, &["auth"], &[], 0.9), &ownerships);
    assert_eq!(hint.reviewers.len(), 1);
    assert_eq!(hint.reviewers[0].author, AuthorId("alice".into()));
}

#[test]
fn equal_candidates_are_ordered_by_author_id() {
    let hinter = SkillRoutingHinter::new();
    let ownerships = vec![ownership(
        "auth",
        vec![candidate("bob", 0.7), candidate("alice", 0.7)],
    )];
    let hint = hinter.hint(&projected(Intent::Issue, &["auth"], &[], 0.9), &ownerships);
    assert_eq!(hint.reviewers[0].author, AuthorId("alice".into()));
    assert_eq!(hint.reviewers[1].author, AuthorId("bob".into()));
    assert_eq!(hint.reviewers[0].score.get(), hint.reviewers[1].score.get());
}

#[test]
fn same_inputs_build_identical_hint() {
    let hinter = SkillRoutingHinter::default();
    let ownerships = vec![ownership(
        "auth",
        vec![candidate("alice", 0.9), candidate("bob", 0.5)],
    )];
    let p = projected(Intent::Issue, &["auth"], &[], 0.9);
    assert_eq!(hinter.hint(&p, &ownerships), hinter.hint(&p, &ownerships));
}

#[test]
fn no_owners_yields_empty_hint() {
    let hinter = SkillRoutingHinter::new();
    let hint = hinter.hint(&projected(Intent::Issue, &["auth"], &[], 0.9), &[]);
    assert!(hint.reviewers.is_empty());
    assert!(hint.human_hint.is_none());
}

#[test]
fn same_message_projects_identically() {
    let mut projector = MockProjector::new();
    let msg = message("Should we use sqlite for the auth sdk refresh-token store?");
    assert_eq!(projector.project(&msg), projector.project(&msg));
}

#[test]
fn recognizes_intent_topics_and_entities() {
    let mut projector = MockProjector::new();
    let projection = projector.project(&message(
        "Should we use sqlite for the auth sdk refresh-token?",
    ));
    assert_eq!(projection.intent, Intent::Question);
    assert!(projection.topics.contains(&Topic("auth".into())));
    assert!(projection.topics.contains(&Topic("sdk".into())));
    assert!(projection.entities.contains(&Entity("sqlite".into())));
    assert!(projection
        .entities
        .contains(&Entity("refresh-token".into())));
}

#[test]
fn the_mock_lowers_the_body_and_counts_its_signal() {
    let mut projector = MockProjector::default();
    assert_eq!(projector.kind(), "mirrorlane.projection.mock");
    assert_eq!(projector.version().as_str(), "mock:v1");
    let p = projector.project(&message("We WILL use RUST and Postgres"));
    assert_eq!(p.intent, Intent::Decision);
    assert_eq!(p.topics, vec![Topic("rust".into())]);
    assert_eq!(p.entities, vec![Entity("postgres".into())]);
    assert_eq!(value(p.confidence.get()), 0.5 + 0.1 * 2.0);
    let bodies = ["", "rust", "rust sdk", "rust sdk infra", "rust sdk infra sqlite"];
    for (n, body) in bodies.into_iter().enumerate() {
        let p = projector.project(&message(body));
        assert_eq!(value(p.confidence.get()), 0.5 + 0.1 * n as f64);
    }
    let p = projector.project(&message("rust backend sdk infra ai auth oauth ci postgres"));
    assert_eq!(value(p.confidence.get()), 1.0);
}

#[test]
fn intents_are_tried_in_order() {
    for (body, intent) in [
        ("is this a bug?", Intent::Question),
        ("i suggest we fix the bug", Intent::Proposal),
        ("my proposal", Intent::Proposal),
        ("let's fix the error", Intent::Decision),
        ("we will do the task", Intent::Decision),
        ("it is broken, todo", Intent::Issue),
        ("need to write docs", Intent::Task),
        ("good morning", Intent::Social),
    ] {
        assert_eq!(detect_intent(body), intent, "{body}");
    }
}

fn routable(intent: Intent, confidence: f64) -> Projection {
    projected(intent, &["auth"], &["sqlite"], confidence)
}

#[test]
fn intent_selects_target_without_escalation() {
    let router = RuleRouter::new();
    let (decision, _trace) = router.route(&routable(Intent::Task, 0.9));
    assert_eq!(decision.target, ConsumerKind::WorklaneJob);
    assert!(!decision.escalated);
}

#[test]
fn github_bound_intents_route_to_github() {
    let router = RuleRouter::new();
    for intent in [Intent::Issue, Intent::Proposal] {
        let (decision, _trace) = router.route(&routable(intent, 0.9));
        assert_eq!(decision.target, ConsumerKind::GitHub);
        assert!(!decision.escalated);
    }
}

#[test]
fn a_custom_rule_set_retargets_an_intent() {
    let router = RuleRouter::with_rules(
        vec![RoutingRule {
            intent: Intent::Issue,
            target: ConsumerKind::Agent,
        }],
        d(0.6),
        ConsumerKind::Human,
    );
    let (decision, _) = router.route(&routable(Intent::Issue, 0.9));
    assert_eq!(decision.target, ConsumerKind::Agent);
}

#[test]
fn an_unmatched_intent_routes_to_the_default_target() {
    let router = RuleRouter::with_rules(
        vec![RoutingRule {
            intent: Intent::Issue,
            target: ConsumerKind::GitHub,
        }],
        d(0.6),
        ConsumerKind::Agent,
    );
    let (decision, _) = router.route(&routable(Intent::Task, 0.9));
    assert_eq!(
        decision.target,
        ConsumerKind::Agent,
        "no rule → default target"
    );
    assert!(!decision.escalated);
}

#[test]
fn low_confidence_escalates_to_human() {
    let router = RuleRouter::new();
    let (decision, trace) = router.route(&routable(Intent::Decision, 0.3));
    assert_eq!(decision.target, ConsumerKind::Human);
    assert!(decision.escalated);
    assert_eq!(
        decision.reason,
        "confidence 0.30 below 0.60 threshold; escalated to human"
    );
    assert_eq!(trace.steps.len(), 1);
    assert_eq!(trace.steps[0].rule_name, "confidence_threshold");
    assert!(trace.steps[0].matched);
    assert_eq!(trace.steps[0].resulting_target, Some(ConsumerKind::Human));
}

#[test]
fn same_projection_routes_identically() {
    let router = RuleRouter::default();
    let p = routable(Intent::Proposal, 0.8);
    assert_eq!(router.route(&p).0, router.route(&p).0);
    assert_eq!(router.route(&p).1, router.clone().route(&p).1);
}

#[test]
fn a_route_says_why() {
    let router = RuleRouter::new();
    let (decision, trace) = router.route(&routable(Intent::Task, 0.6));
    assert_eq!(decision.reason, "intent=task routed to worklane-job");
    assert_eq!(trace.steps.len(), 2);
    assert!(!trace.steps[0].matched);
    assert_eq!(trace.steps[0].resulting_target, None);
    assert_eq!(trace.steps[1].rule_name, "intent_routing");
    assert_eq!(
        trace.steps[1].resulting_target,
        Some(ConsumerKind::WorklaneJob)
    );
    for threshold in [-1.0, f64::NAN, 0.0] {
        let router = RuleRouter::with_rules(Vec::new(), d(threshold), ConsumerKind::Agent);
        let (decision, _) = router.route(&routable(Intent::Task, 0.0));
        assert!(!decision.escalated, "nothing is below {threshold}");
    }
    let router = RuleRouter::with_rules(Vec::new(), d(1e20), ConsumerKind::Agent);
    let (decision, _) = router.route(&routable(Intent::Task, 1.0));
    assert_eq!(
        decision.reason,
        "confidence 1.00 below 100000000000000000000.00 threshold; escalated to human"
    );
}

#[test]
fn recorder_dedups_redelivery() {
    let mut consumer = RecordingConsumer::new();
    let decision = RoutingDecision {
        message_id: MessageId("m-1".into()),
        target: ConsumerKind::Agent,
        reason: "test".into(),
        escalated: false,
    };
    assert!(consumer.is_empty());
    consumer
        .consume(&decision, &routable(Intent::Proposal, 0.8))
        .expect("consume");
    consumer
        .consume(&decision, &routable(Intent::Proposal, 0.8))
        .expect("consume");
    assert_eq!(consumer.len(), 1, "re-delivery records one receipt");
    assert!(consumer.received(ConsumerKind::Agent, &MessageId("m-1".into())));
    assert!(!consumer.received(ConsumerKind::Human, &MessageId("m-1".into())));
}

#[test]
fn same_projections_scope_identically() {
    let scoper = MockScopeProjector::new();
    let projections = vec![projected(
        Intent::Question,
        &["auth", "sdk"],
        &["refresh-token"],
        0.9,
    )];
    assert_eq!(
        scoper.scope(&conversation(), &projections),
        scoper.scope(&conversation(), &projections)
    );
}

#[test]
fn detected_components_load_others_ignore_and_are_disjoint() {
    let scoper = MockScopeProjector::new();
    let projections = vec![projected(
        Intent::Question,
        &["auth", "sdk"],
        &["refresh-token"],
        0.8,
    )];
    let scope = scoper.scope(&conversation(), &projections);

    assert!(scope.load.contains(&Component("auth-sdk".into())));
    assert!(scope.load.contains(&Component("token-refresh".into())));
    assert!(scope.ignore.contains(&Component("web-ui".into())));
    for component in &scope.load {
        assert!(
            !scope.ignore.contains(component),
            "load and ignore disjoint"
        );
    }
    assert_eq!(
        scope.reason,
        "Session focuses on auth-sdk, token-refresh."
    );
}

#[test]
fn empty_session_yields_empty_load_and_zero_confidence() {
    let scoper = MockScopeProjector::new();
    let scope = scoper.scope(&conversation(), &[]);
    assert!(scope.load.is_empty());
    assert_eq!(scope.ignore.len(), 6);
    assert_eq!(value(scope.confidence.get()), 0.0);
    assert_eq!(
        scope.reason,
        "No known components detected for this session."
    );
}

#[test]
fn a_scope_lowers_keywords_and_averages_confidence() {
    let scoper = MockScopeProjector::default();
    let projections = vec![
        projected(Intent::Task, &["BILLING", "OAuth2"], &[], 0.1),
        projected(Intent::Task, &["Web"], &["unknown"], 0.2),
        projected(Intent::Task, &[], &[], 0.3),
    ];
    let scope = scoper.scope(&conversation(), &projections);
    let load: Vec<&str> = scope.load.iter().map(|c| c.0.as_str()).collect();
    let ignore: Vec<&str> = scope.ignore.iter().map(|c| c.0.as_str()).collect();
    assert_eq!(load, vec!["billing", "oauth2", "web-ui"]);
    assert_eq!(ignore, vec!["auth-sdk", "token-refresh", "analytics"]);
    assert_eq!(value(scope.confidence.get()), (0.1 + 0.2 + 0.3) / 3.0);
}

#[test]
fn keywords_name_components() {
    for (keyword, component) in [
        ("auth", Some("auth-sdk")),
        ("sdk", Some("auth-sdk")),
        ("oauth", Some("oauth2")),
        ("oauth2", Some("oauth2")),
        ("refresh-token", Some("token-refresh")),
        ("web", Some("web-ui")),
        ("ui", Some("web-ui")),
        ("web-ui", Some("web-ui")),
        ("analytics", Some("analytics")),
        ("billing", Some("billing")),
        ("AUTH", Some("auth-sdk")),
        ("Web-UI", Some("web-ui")),
        ("authn", None),
        ("", None),
    ] {
        assert_eq!(component_for(keyword), component, "{keyword}");
    }
    assert_eq!(component_for_lowered("auth"), Some("auth-sdk"));
    assert_eq!(component_for_lowered("AUTH"), None);
}

fn contribution(author: &str, topics: &[&str], confidence: f64) -> SkillContribution {
    SkillContribution {
        author: AuthorId(author.into()),
        display_name: author.into(),
        topics: topics.iter().map(|t| Topic((*t).into())).collect(),
        confidence: Confidence::new(d(confidence)),
    }
}

fn ownership_for<'a>(index: &'a SkillIndex, topic: &str) -> &'a TopicOwnership {
    index
        .ownerships
        .iter()
        .find(|o| o.topic.0 == topic)
        .expect("topic present")
}

#[test]
fn strongest_contributor_scores_highest() {
    let builder = MessageSkillBuilder::new();
    let index = builder.build(&[
        contribution("alice", &["auth"], 0.9),
        contribution("alice", &["auth"], 0.9),
        contribution("bob", &["auth"], 0.9),
    ]);
    let auth = ownership_for(&index, "auth");
    assert_eq!(auth.candidates[0].author, AuthorId("alice".into()));
    assert_eq!(value(auth.candidates[0].score.get()), 1.0);
    assert!(value(auth.candidates[1].score.get()) < 1.0);
}

#[test]
fn same_input_builds_identical_index() {
    let builder = MessageSkillBuilder::default();
    let input = [
        contribution("alice", &["auth", "rust"], 0.8),
        contribution("bob", &["rust"], 0.5),
    ];
    assert_eq!(builder.build(&input), builder.build(&input));
}

#[test]
fn equal_contributors_are_ordered_by_author_id() {
    let builder = MessageSkillBuilder::new();
    let index = builder.build(&[
        contribution("bob", &["auth"], 0.7),
        contribution("alice", &["auth"], 0.7),
    ]);
    let auth = ownership_for(&index, "auth");
    assert_eq!(auth.candidates[0].author, AuthorId("alice".into()));
    assert_eq!(auth.candidates[1].author, AuthorId("bob".into()));
    assert_eq!(
        auth.candidates[0].score.get(),
        auth.candidates[1].score.get()
    );
}

#[test]
fn author_ids_are_ordered_as_std_orders_them() {
    let mut names = vec!["z", "\u{e9}", "a", "ab", "\u{1d54f}", "\u{ffee}", "", "B"];
    let contributions: Vec<SkillContribution> = names
        .iter()
        .map(|name| contribution(name, &["auth"], 0.5))
        .collect();
    let index = MessageSkillBuilder::new().build(&contributions);
    names.sort();
    let profiles: Vec<&str> = index.profiles.iter().map(|p| p.author.0.as_str()).collect();
    assert_eq!(profiles, names);
    let owners: Vec<&str> = ownership_for(&index, "auth")
        .candidates
        .iter()
        .map(|c| c.author.0.as_str())
        .collect();
    assert_eq!(owners, names);
}

#[test]
fn a_keyword_is_found_wherever_it_stands() {
    let id = MessageId("m-1".into());
    for body in ["bug", "a bug", "bug!", "bubug", "bu\u{e9} bug \u{e9}"] {
        assert_eq!(
            MockProjector::project_lowered(&id, body).intent,
            Intent::Issue,
            "{body}"
        );
    }
    for body in ["", "bu", "b ug", "ubg", "bu\u{e9}g"] {
        assert_eq!(
            MockProjector::project_lowered(&id, body).intent,
            Intent::Social,
            "{body}"
        );
    }
}

#[test]
fn profiles_and_ownerships_are_in_order() {
    let builder = MessageSkillBuilder::new();
    let mut renamed = contribution("bob", &["rust", "auth", "rust"], 0.1);
    renamed.display_name = "Robert".into();
    let index = builder.build(&[
        contribution("bob", &["rust"], 0.2),
        contribution("alice", &["sdk"], 0.0),
        renamed,
    ]);
    let authors: Vec<&str> = index.profiles.iter().map(|p| p.author.0.as_str()).collect();
    assert_eq!(authors, vec!["alice", "bob"]);
    assert_eq!(index.profiles[1].display_name, "Robert", "the last name wins");
    let topics: Vec<(&str, f64)> = index.profiles[1]
        .topics
        .iter()
        .map(|t| (t.topic.0.as_str(), value(t.weight)))
        .collect();
    assert_eq!(topics, vec![("auth", 0.1), ("rust", 0.2 + 0.1 + 0.1)]);
    let owned: Vec<&str> = index.ownerships.iter().map(|o| o.topic.0.as_str()).collect();
    assert_eq!(owned, vec!["auth", "rust", "sdk"]);
    assert_eq!(
        value(ownership_for(&index, "sdk").candidates[0].score.get()),
        0.0,
        "no weight, no score"
    );
    assert!(builder.build(&[]).profiles.is_empty());
}

fn dated(id: &str, intent: Intent) -> Projection {
    let mut p = projected(intent, &[], &[], 0.8);
    p.message_id = MessageId(id.into());
    p
}

fn scope() -> Scope {
    Scope {
        conversation: conversation(),
        load: vec![Component("auth-sdk".into())],
        ignore: vec![Component("billing".into())],
        reason: "SDK auth work.".into(),
        confidence: Confidence::new(d(0.8)),
    }
}

fn projections() -> Vec<Projection> {
    vec![
        dated("m-1", Intent::Decision),
        dated("m-2", Intent::Question),
        dated("m-3", Intent::Task),
        dated("m-4", Intent::Social),
    ]
}

#[test]
fn same_inputs_build_the_same_document() {
    let builder = MockWarmupBuilder::new();
    let scope = scope();
    let projections = projections();
    assert_eq!(
        builder.build(&conversation(), Some(&scope), &projections),
        builder.build(&conversation(), Some(&scope), &projections)
    );
}

#[test]
fn projections_are_grouped_by_intent() {
    let builder = MockWarmupBuilder::new();
    let doc = builder.build(&conversation(), Some(&scope()), &projections());
    assert_eq!(doc.decisions, vec![MessageId("m-1".into())]);
    assert_eq!(doc.open_questions, vec![MessageId("m-2".into())]);
    assert_eq!(doc.tasks, vec![MessageId("m-3".into())]);
    assert_eq!(
        doc.summary,
        "You are joining c-1.\nFocus: auth-sdk\nWhy: SDK auth work.\nRecent decisions: 1\nOpen questions: 1\nTasks: 1"
    );
}

#[test]
fn focus_comes_from_scope_when_present() {
    let builder = MockWarmupBuilder::default();
    let doc = builder.build(&conversation(), Some(&scope()), &projections());
    assert_eq!(doc.focus, vec![Component("auth-sdk".into())]);
}

#[test]
fn absent_scope_yields_empty_focus() {
    let builder = MockWarmupBuilder::new();
    let doc = builder.build(&conversation(), None, &projections());
    assert!(doc.focus.is_empty());
    assert!(!doc.summary.is_empty());
    assert_eq!(
        doc.summary,
        "You are joining c-1.\nFocus: (no scope yet)\nRecent decisions: 1\nOpen questions: 1\nTasks: 1"
    );
}
