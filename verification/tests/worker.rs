//! The jobs, the strategies and the cache they fill.

use mirrorlane::double::Double;
use mirrorlane::model::derivation::derivation_version;
use mirrorlane::model::derivation::ConversationDerivation;
use mirrorlane::model::derivation::DerivedOutputCache;
use mirrorlane::model::derivation::InMemoryDerivedOutputCache;
use mirrorlane::model::message::Author;
use mirrorlane::model::message::AuthorId;
use mirrorlane::model::message::Conversation;
use mirrorlane::model::message::ConversationId;
use mirrorlane::model::message::MessageEnvelope;
use mirrorlane::model::message::MessageId;
use mirrorlane::model::message::Source;
use mirrorlane::model::message_log::InMemoryMessageStore;
use mirrorlane::model::message_log::MessageStore;
use mirrorlane::model::projection::Confidence;
use mirrorlane::model::projection::Intent;
use mirrorlane::model::projection::Projection;
use mirrorlane::model::projection::Topic;
use mirrorlane::model::routing::Consumer;
use mirrorlane::model::routing::ConsumerError;
use mirrorlane::model::routing::ConsumerKind;
use mirrorlane::model::routing::ConsumerRegistry;
use mirrorlane::model::routing::RoutingDecision;
use mirrorlane::model::routing::RoutingHintRequest;
use mirrorlane::model::routing::RoutingRequest;
use mirrorlane::model::routing::RoutingTrace;
use mirrorlane::model::scope::Component;
use mirrorlane::model::scope::Scope;
use mirrorlane::model::scope::ScopeRequest;
use mirrorlane::model::skill::DeveloperSnapshotRequest;
use mirrorlane::model::skill::ExpertCandidate;
use mirrorlane::model::skill::Participant;
use mirrorlane::model::skill::SkillEntry;
use mirrorlane::model::skill::SkillRequest;
use mirrorlane::model::skill::SkillScore;
use mirrorlane::model::skill::TopicOwnership;
use mirrorlane::model::store::DeveloperSnapshotStore;
use mirrorlane::model::store::InMemoryDeveloperSnapshotStore;
use mirrorlane::model::store::InMemoryProjectionStore;
use mirrorlane::model::store::InMemoryRoutingHintStore;
use mirrorlane::model::store::InMemoryRoutingStore;
use mirrorlane::model::store::InMemoryRoutingTraceStore;
use mirrorlane::model::store::InMemoryScopeStore;
use mirrorlane::model::store::InMemorySkillStore;
use mirrorlane::model::store::InMemoryWarmupStore;
use mirrorlane::model::store::ProjectionStore;
use mirrorlane::model::store::RoutingHintStore;
use mirrorlane::model::store::RoutingStore;
use mirrorlane::model::store::RoutingTraceStore;
use mirrorlane::model::store::ScopeStore;
use mirrorlane::model::store::SkillStore;
use mirrorlane::model::store::WarmupStore;
use mirrorlane::model::warmup::WarmupRequest;
use mirrorlane::provider::developer::SkillDeveloperSnapshotter;
use mirrorlane::provider::hint::SkillRoutingHinter;
use mirrorlane::provider::mock::MockProjector;
use mirrorlane::provider::routing::RecordingConsumer;
use mirrorlane::provider::routing::RuleRouter;
use mirrorlane::provider::scope::MockScopeProjector;
use mirrorlane::provider::skill::MessageSkillBuilder;
use mirrorlane::provider::warmup::MockWarmupBuilder;
use mirrorlane::runtime::step::Step;
use mirrorlane::runtime::step::StepVersion;
use mirrorlane::worker::composition::global;
use mirrorlane::worker::composition::per_conversation;
use mirrorlane::worker::composition::per_message;
use mirrorlane::worker::derived::content_hash;
use mirrorlane::worker::derived::content_hash_of;
use mirrorlane::worker::derived::conversations;
use mirrorlane::worker::derived::derivation_for;
use mirrorlane::worker::derived::messages_in;
use mirrorlane::worker::derived::populate_cache;
use mirrorlane::worker::jobs::BuildDeveloperSnapshotJob;
use mirrorlane::worker::jobs::BuildRoutingHintJob;
use mirrorlane::worker::jobs::BuildScopeJob;
use mirrorlane::worker::jobs::BuildSkillJob;
use mirrorlane::worker::jobs::BuildWarmupJob;
use mirrorlane::worker::jobs::ProcessMessageJob;
use mirrorlane::worker::observer::JobOutcome;
use mirrorlane::worker::observer::RecordingJobObserver;
use mirrorlane::worker::registry::BuiltinStrategy;
use mirrorlane::worker::registry::ReplayStrategy;
use mirrorlane::worker::registry::StrategyContext;
use mirrorlane::worker::registry::StrategyRegistry;
use mirrorlane::worker::registry::UnknownStrategy;
use mirrorlane::worker::replay::Replay;
use mirrorlane::worker::replay::ReplayStores;
use mirrorlane::worker::route::RouteJob;
use mirrorlane::worker::routed_work::routed_work_lane;
use mirrorlane::worker::routed_work::unique_key;
use mirrorlane::worker::routed_work::RoutedWork;
use mirrorlane::worker::routed_work::ROUTED_WORK_LANE;
use mirrorlane::worker::strategy::Strategy;
use mirrorlane::worker::submission::strategy_run_lane;
use mirrorlane::worker::submission::StrategyRunJob;
use mirrorlane::worker::submission::StrategyRunRequest;
use mirrorlane::worker::submission::STRATEGY_RUN_LANE;
use std::cell::Cell;
use std::rc::Rc;

type Ports = StrategyContext<
    MockProjector,
    MockScopeProjector,
    MockWarmupBuilder,
    MessageSkillBuilder,
    SkillRoutingHinter,
    SkillDeveloperSnapshotter,
>;

fn ports() -> Ports {
    Replay::new(
        MockProjector::new(),
        MockScopeProjector::new(),
        MockWarmupBuilder::new(),
        MessageSkillBuilder::new(),
        SkillRoutingHinter::new(),
        SkillDeveloperSnapshotter::new(),
    )
}

fn d(x: f64) -> Double {
    Double::from_bits(x.to_bits())
}

fn said(id: &str, conversation: &str, author: &str, body: &str) -> MessageEnvelope {
    MessageEnvelope {
        id: MessageId(id.into()),
        source: Source::Discord,
        author: Author {
            id: AuthorId(author.into()),
            display_name: "Dev".into(),
        },
        conversation: Conversation {
            id: ConversationId(conversation.into()),
            thread: None,
        },
        body: body.into(),
    }
}

fn message() -> MessageEnvelope {
    let mut m = said("m-1", "c-1", "u-1", "Should we use sqlite for the auth sdk?");
    m.source = Source::GitHub;
    m
}

fn conversation() -> ConversationId {
    ConversationId("c-1".into())
}

fn ids(messages: &[&str]) -> Vec<MessageId> {
    messages.iter().map(|m| MessageId((*m).into())).collect()
}

fn projected() -> InMemoryProjectionStore {
    let mut store = InMemoryProjectionStore::new();
    ProcessMessageJob::new(&mut MockProjector::new(), &mut store).run(&message());
    store
}

fn owned() -> InMemorySkillStore {
    let mut skills = InMemorySkillStore::new();
    for topic in ["auth", "sdk"] {
        skills.upsert(TopicOwnership {
            topic: Topic(topic.into()),
            candidates: vec![ExpertCandidate {
                author: AuthorId("u-1".into()),
                display_name: "Dev".into(),
                score: SkillScore::new(d(1.0)),
            }],
        });
    }
    skills
}

#[test]
fn processing_stores_projection() {
    let mut store = InMemoryProjectionStore::new();
    ProcessMessageJob::new(&mut MockProjector::new(), &mut store).run(&message());
    assert!(store.get(&MessageId("m-1".into())).is_some());
}

#[test]
fn lib_redelivery_is_idempotent() {
    let mut projector = MockProjector::new();
    let mut projections = InMemoryProjectionStore::new();
    for _ in 0..2 {
        ProcessMessageJob::new(&mut projector, &mut projections).run(&message());
    }
    assert_eq!(
        projections.len(),
        1,
        "same message must yield one projection"
    );

    let mut scopes = InMemoryScopeStore::new();
    let request = ScopeRequest {
        conversation: conversation(),
        messages: ids(&["m-1"]),
    };
    for _ in 0..2 {
        BuildScopeJob::new(&projections, &MockScopeProjector::new(), &mut scopes).run(&request);
    }
    assert_eq!(scopes.len(), 1, "same request must yield one scope");

    let mut warmups = InMemoryWarmupStore::new();
    let request = WarmupRequest {
        conversation: conversation(),
        messages: ids(&["m-1"]),
    };
    for _ in 0..2 {
        BuildWarmupJob::new(
            &projections,
            &scopes,
            &MockWarmupBuilder::new(),
            &mut warmups,
        )
        .run(&request);
    }
    assert_eq!(warmups.len(), 1, "same request must yield one document");

    let mut skills = InMemorySkillStore::new();
    let request = SkillRequest {
        entries: vec![entry("u-1", "m-1")],
    };
    for _ in 0..2 {
        BuildSkillJob::new(&projections, &MessageSkillBuilder::new(), &mut skills).run(&request);
    }
    assert_eq!(skills.len(), 2, "re-delivery must not duplicate ownership");

    let mut routes = InMemoryRoutingStore::new();
    let mut traces = InMemoryRoutingTraceStore::new();
    let mut registry = ConsumerRegistry::new();
    registry.register(ConsumerKind::Human, RecordingConsumer::new());
    let router = RuleRouter::new();
    for _ in 0..2 {
        RouteJob::new(
            &projections,
            &router,
            &mut routes,
            &mut traces,
            &mut registry,
        )
        .run(&RoutingRequest {
            messages: ids(&["m-1"]),
        })
        .expect("route");
    }
    assert_eq!(routes.len(), 1, "same message must yield one decision");
    assert_eq!(traces.len(), 1);
    assert_eq!(
        registry.consumer_for(ConsumerKind::Human).unwrap().len(),
        1
    );

    let mut hints = InMemoryRoutingHintStore::new();
    for _ in 0..2 {
        BuildRoutingHintJob::new(
            &projections,
            &owned(),
            &SkillRoutingHinter::new(),
            &mut hints,
        )
        .run(&RoutingHintRequest {
            messages: ids(&["m-1"]),
        });
    }
    assert_eq!(hints.len(), 1, "same message must yield one hint");

    let mut developers = InMemoryDeveloperSnapshotStore::new();
    for _ in 0..2 {
        BuildDeveloperSnapshotJob::new(
            &projections,
            &owned(),
            &SkillDeveloperSnapshotter::new(),
            &mut developers,
        )
        .run(&snapshot_request());
    }
    assert_eq!(developers.len(), 1);
}

#[test]
fn building_a_scope_stores_it_by_conversation() {
    let mut scopes = InMemoryScopeStore::new();
    BuildScopeJob::new(&projected(), &MockScopeProjector::new(), &mut scopes).run(&ScopeRequest {
        conversation: conversation(),
        messages: ids(&["m-1"]),
    });
    assert!(scopes.get(&conversation()).is_some());
}

#[test]
fn missing_projections_are_skipped() {
    let mut scopes = InMemoryScopeStore::new();
    BuildScopeJob::new(&projected(), &MockScopeProjector::new(), &mut scopes).run(&ScopeRequest {
        conversation: conversation(),
        messages: ids(&["m-1", "m-missing"]),
    });
    assert!(scopes.get(&conversation()).is_some());
}

fn intended(id: &str, intent: Intent) -> Projection {
    Projection {
        message_id: MessageId(id.into()),
        intent,
        topics: Vec::new(),
        entities: Vec::new(),
        confidence: Confidence::new(d(0.8)),
    }
}

fn seeded_projections() -> InMemoryProjectionStore {
    let mut store = InMemoryProjectionStore::new();
    store.upsert(intended("m-1", Intent::Decision));
    store.upsert(intended("m-2", Intent::Question));
    store.upsert(intended("m-3", Intent::Task));
    store
}

fn warmup_request() -> WarmupRequest {
    WarmupRequest {
        conversation: conversation(),
        messages: ids(&["m-1", "m-2", "m-3"]),
    }
}

#[test]
fn building_a_warmup_stores_it_by_conversation() {
    let mut scopes = InMemoryScopeStore::new();
    scopes.upsert(Scope {
        conversation: conversation(),
        load: vec![Component("auth-sdk".into())],
        ignore: Vec::new(),
        reason: "SDK auth work.".into(),
        confidence: Confidence::new(d(0.8)),
    });
    let mut warmups = InMemoryWarmupStore::new();
    BuildWarmupJob::new(
        &seeded_projections(),
        &scopes,
        &MockWarmupBuilder::new(),
        &mut warmups,
    )
    .run(&warmup_request());
    let document = warmups.get(&conversation()).expect("document stored");
    assert_eq!(document.decisions, vec![MessageId("m-1".into())]);
    assert_eq!(document.focus, vec![Component("auth-sdk".into())]);
}

#[test]
fn missing_scope_does_not_fail() {
    let mut warmups = InMemoryWarmupStore::new();
    BuildWarmupJob::new(
        &seeded_projections(),
        &InMemoryScopeStore::new(),
        &MockWarmupBuilder::new(),
        &mut warmups,
    )
    .run(&warmup_request());
    let document = warmups.get(&conversation()).expect("document stored");
    assert!(document.focus.is_empty());
}

fn entry(author: &str, message: &str) -> SkillEntry {
    SkillEntry {
        author: AuthorId(author.into()),
        display_name: author.into(),
        message: MessageId(message.into()),
    }
}

#[test]
fn building_stores_ownership_per_topic() {
    let mut skills = InMemorySkillStore::new();
    BuildSkillJob::new(&projected(), &MessageSkillBuilder::new(), &mut skills).run(&SkillRequest {
        entries: vec![entry("u-1", "m-1")],
    });
    let auth = skills.get(&Topic("auth".into())).expect("auth ownership");
    assert_eq!(auth.candidates[0].author, AuthorId("u-1".into()));
    assert!(skills.get(&Topic("sdk".into())).is_some());
}

#[test]
fn lib_missing_projection_is_skipped() {
    let mut skills = InMemorySkillStore::new();
    BuildSkillJob::new(&projected(), &MessageSkillBuilder::new(), &mut skills).run(&SkillRequest {
        entries: vec![entry("u-1", "m-1"), entry("u-2", "m-missing")],
    });
    assert!(
        skills.get(&Topic("auth".into())).is_some(),
        "index still builds from present projections"
    );

    let mut routes = InMemoryRoutingStore::new();
    let mut traces = InMemoryRoutingTraceStore::new();
    let mut registry = ConsumerRegistry::<RecordingConsumer>::new();
    RouteJob::new(
        &projected(),
        &RuleRouter::new(),
        &mut routes,
        &mut traces,
        &mut registry,
    )
    .run(&RoutingRequest {
        messages: ids(&["m-1", "m-missing"]),
    })
    .expect("route");
    assert!(routes.get(&MessageId("m-1".into())).is_some());
    assert!(routes.get(&MessageId("m-missing".into())).is_none());
    assert_eq!(routes.len(), 1);

    let mut hints = InMemoryRoutingHintStore::new();
    BuildRoutingHintJob::new(
        &projected(),
        &owned(),
        &SkillRoutingHinter::new(),
        &mut hints,
    )
    .run(&RoutingHintRequest {
        messages: ids(&["m-1", "m-missing"]),
    });
    assert!(hints.get(&MessageId("m-1".into())).is_some());
    assert!(hints.get(&MessageId("m-missing".into())).is_none());
    assert_eq!(hints.len(), 1);
}

#[test]
fn routing_stores_decision_and_dispatches() {
    let mut routes = InMemoryRoutingStore::new();
    let mut traces = InMemoryRoutingTraceStore::new();
    let mut registry = ConsumerRegistry::new();
    registry.register(ConsumerKind::Human, RecordingConsumer::new());
    RouteJob::new(
        &projected(),
        &RuleRouter::new(),
        &mut routes,
        &mut traces,
        &mut registry,
    )
    .run(&RoutingRequest {
        messages: ids(&["m-1"]),
    })
    .expect("route");
    let decision = routes
        .get(&MessageId("m-1".into()))
        .expect("decision stored");
    assert_eq!(decision.target, ConsumerKind::Human);
    assert!(registry
        .consumer_for(ConsumerKind::Human)
        .unwrap()
        .received(ConsumerKind::Human, &MessageId("m-1".into())));
    assert!(traces.get(&MessageId("m-1".into())).is_some());
}

/// A trace store bounded to two traces.
#[derive(Default)]
struct LastTwo(Vec<RoutingTrace>);

impl RoutingTraceStore for LastTwo {
    fn upsert(&mut self, trace: RoutingTrace) {
        match self.0.iter().position(|t| t.message_id == trace.message_id) {
            Some(at) => self.0[at] = trace,
            None => self.0.push(trace),
        }
        if self.0.len() > 2 {
            self.0.remove(0);
        }
    }

    fn get(&self, id: &MessageId) -> Option<RoutingTrace> {
        self.0.iter().find(|t| t.message_id == *id).cloned()
    }
}

#[test]
fn a_bounded_trace_store_takes_every_trace_in_order() {
    let mut projections = InMemoryProjectionStore::new();
    for id in ["m-1", "m-2", "m-3"] {
        projections.upsert(intended(id, Intent::Question));
    }
    let mut routes = InMemoryRoutingStore::new();
    let mut traces = LastTwo::default();
    let mut registry = ConsumerRegistry::<RecordingConsumer>::new();
    RouteJob::new(
        &projections,
        &RuleRouter::new(),
        &mut routes,
        &mut traces,
        &mut registry,
    )
    .run(&RoutingRequest {
        messages: ids(&["m-1", "m-2", "m-1", "m-3"]),
    })
    .expect("route");
    assert_eq!(routes.len(), 3, "decisions are not bounded");
    assert!(traces.get(&MessageId("m-1".into())).is_none());
    assert!(traces.get(&MessageId("m-2".into())).is_some());
    assert!(traces.get(&MessageId("m-3".into())).is_some());
}

/// A consumer that refuses one message.
struct Refusing {
    refused: &'static str,
    seen: Vec<MessageId>,
}

impl Consumer for Refusing {
    fn consume(
        &mut self,
        decision: &RoutingDecision,
        _projection: &Projection,
    ) -> Result<(), ConsumerError> {
        if decision.message_id.0 == self.refused {
            return Err(ConsumerError::new("boom"));
        }
        self.seen.push(decision.message_id.clone());
        Ok(())
    }
}

#[test]
fn a_failing_consumer_stops_the_run_and_a_retry_duplicates_nothing() {
    let mut projections = InMemoryProjectionStore::new();
    for id in ["m-1", "m-2", "m-3"] {
        projections.upsert(intended(id, Intent::Question));
    }
    let mut routes = InMemoryRoutingStore::new();
    let mut traces = InMemoryRoutingTraceStore::new();
    let mut registry = ConsumerRegistry::new();
    registry.register(
        ConsumerKind::Human,
        Refusing {
            refused: "m-2",
            seen: Vec::new(),
        },
    );
    let router = RuleRouter::new();
    let request = RoutingRequest {
        messages: ids(&["m-1", "m-2", "m-3"]),
    };
    let result = RouteJob::new(
        &projections,
        &router,
        &mut routes,
        &mut traces,
        &mut registry,
    )
    .run(&request);
    assert_eq!(result, Err(ConsumerError::new("boom")));
    assert_eq!(routes.len(), 2, "decided before the failure is recorded");
    assert_eq!(
        registry.consumer_for(ConsumerKind::Human).unwrap().seen,
        ids(&["m-1"])
    );
    registry.register(ConsumerKind::Human, Refusing { refused: "", seen: Vec::new() });
    RouteJob::new(
        &projections,
        &router,
        &mut routes,
        &mut traces,
        &mut registry,
    )
    .run(&request)
    .expect("retry succeeds");
    assert_eq!(routes.len(), 3);
}

#[test]
fn building_stores_one_hint_per_message() {
    let mut hints = InMemoryRoutingHintStore::new();
    BuildRoutingHintJob::new(
        &projected(),
        &owned(),
        &SkillRoutingHinter::new(),
        &mut hints,
    )
    .run(&RoutingHintRequest {
        messages: ids(&["m-1"]),
    });
    let hint = hints.get(&MessageId("m-1".into())).expect("hint stored");
    assert_eq!(hint.human_hint.unwrap().author, AuthorId("u-1".into()));
    assert_eq!(hints.len(), 1);
}

fn snapshot_request() -> DeveloperSnapshotRequest {
    DeveloperSnapshotRequest {
        conversation: conversation(),
        participants: vec![Participant {
            author: AuthorId("u-1".into()),
            display_name: "Dev".into(),
        }],
        messages: ids(&["m-1"]),
    }
}

#[test]
fn building_stores_developers_per_conversation() {
    let mut developers = InMemoryDeveloperSnapshotStore::new();
    BuildDeveloperSnapshotJob::new(
        &projected(),
        &owned(),
        &SkillDeveloperSnapshotter::new(),
        &mut developers,
    )
    .run(&snapshot_request());
    let session = developers.get(&conversation()).expect("stored");
    assert_eq!(session.developers.len(), 1);
    assert_eq!(session.developers[0].author, AuthorId("u-1".into()));
    assert_eq!(session.developers[0].topics.len(), 2);
}

fn seeded_log() -> InMemoryMessageStore {
    let mut log = InMemoryMessageStore::new();
    log.append(said(
        "m-1",
        "c-1",
        "u-1",
        "We will use sqlite for the auth sdk oauth refresh-token store.",
    ));
    log.append(said(
        "m-2",
        "c-1",
        "u-1",
        "Should we expose a refresh endpoint?",
    ));
    log.append(said(
        "m-3",
        "c-2",
        "u-1",
        "We need to add ci for the infra crate.",
    ));
    log
}

#[test]
fn replay_is_deterministic() {
    let log = seeded_log();
    let first = ports().run(&log);
    let second = ports().run(&log);

    for message in log.all() {
        assert_eq!(
            first.projections.get(&message.id),
            second.projections.get(&message.id),
            "projection differs for {:?}",
            message.id
        );
    }
    for conversation in [ConversationId("c-1".into()), ConversationId("c-2".into())] {
        assert_eq!(
            first.scopes.get(&conversation),
            second.scopes.get(&conversation),
            "scope differs for {conversation:?}"
        );
        assert_eq!(
            first.warmups.get(&conversation),
            second.warmups.get(&conversation),
            "warm-up differs for {conversation:?}"
        );
    }
    for topic in ["auth", "sdk", "oauth", "ci", "infra"] {
        let topic = Topic(topic.into());
        assert_eq!(
            first.skills.get(&topic),
            second.skills.get(&topic),
            "skill ownership differs for {topic:?}"
        );
    }
    for message in log.all() {
        assert_eq!(
            first.hints.get(&message.id),
            second.hints.get(&message.id),
            "routing hint differs for {:?}",
            message.id
        );
    }
    for conversation in [ConversationId("c-1".into()), ConversationId("c-2".into())] {
        assert_eq!(
            first.developers.get(&conversation),
            second.developers.get(&conversation),
            "session developers differ for {conversation:?}"
        );
    }
}

#[test]
fn replay_derives_a_hint_for_every_message() {
    let log = seeded_log();
    let stores = ports().run(&log);
    for message in log.all() {
        assert!(
            stores.hints.get(&message.id).is_some(),
            "no routing hint for {:?}",
            message.id
        );
    }
    assert_eq!(stores.hints.len(), log.len());
}

#[test]
fn replay_derives_developers_for_every_conversation() {
    let log = seeded_log();
    let stores = ports().run(&log);
    for conversation in [ConversationId("c-1".into()), ConversationId("c-2".into())] {
        let session = stores
            .developers
            .get(&conversation)
            .unwrap_or_else(|| panic!("no session developers for {conversation:?}"));
        assert!(
            !session.developers.is_empty(),
            "conversation {conversation:?} has participants"
        );
    }
    assert_eq!(stores.developers.len(), 2);
}

#[test]
fn replay_accounts_for_every_message() {
    let log = seeded_log();
    let stores = ports().run(&log);

    for message in log.all() {
        assert!(
            stores.projections.get(&message.id).is_some(),
            "no projection for {:?}",
            message.id
        );
    }
    assert_eq!(
        stores.projections.len(),
        log.len(),
        "projection count must equal distinct message count"
    );
}

#[test]
fn duplicate_ingest_does_not_duplicate_projections() {
    let mut log = seeded_log();
    log.append(said(
        "m-1",
        "c-1",
        "u-1",
        "We will use sqlite for the auth sdk.",
    ));
    let stores = ports().run(&log);

    assert_eq!(log.len(), 3, "log dedups by id");
    assert_eq!(stores.projections.len(), 3, "no duplicate projections");
}

#[test]
fn a_partly_projected_log_still_derives() {
    let log = seeded_log();
    let mut projections = InMemoryProjectionStore::new();
    ProcessMessageJob::new(&mut MockProjector::new(), &mut projections).run(&log.all()[0]);
    let stores = ports().derive(&log.all(), projections);
    assert_eq!(stores.projections.len(), 1);
    assert_eq!(stores.hints.len(), 1);
    assert_eq!(stores.warmups.len(), 2, "each conversation has a warm-up");
    assert_eq!(stores.developers.len(), 2);
}

#[test]
fn participants_are_listed_once_under_their_last_name() {
    let mut log = InMemoryMessageStore::new();
    log.append(said("m-1", "c-1", "zoe", "auth"));
    log.append(said("m-2", "c-1", "amy", "sdk"));
    let mut renamed = said("m-3", "c-1", "zoe", "rust");
    renamed.author.display_name = "Zoe".into();
    log.append(renamed);
    log.append(said("m-4", "c-2", "bob", "ci"));
    let stores = ports().run(&log);
    let session = stores.developers.get(&conversation()).expect("developers");
    let names: Vec<(&str, &str)> = session
        .developers
        .iter()
        .map(|d| (d.author.0.as_str(), d.display_name.as_str()))
        .collect();
    assert_eq!(names, vec![("amy", "Dev"), ("zoe", "Zoe")]);
}

#[test]
fn default_id_yields_the_projection_pipeline() {
    let log = seeded_log();
    let registry = StrategyRegistry::with_builtins();
    let strategy = registry
        .build(StrategyRegistry::DEFAULT)
        .expect("projection is registered");
    let stores = strategy.run(&mut ports(), &log);
    assert_eq!(
        stores.projections.len(),
        log.len(),
        "projection derives one projection per message"
    );
}

#[test]
fn a_different_id_yields_a_different_strategy() {
    let log = seeded_log();
    let registry = StrategyRegistry::default();
    let strategy = registry.build("empty").expect("empty is registered");
    let stores = strategy.run(&mut ports(), &log);
    assert_eq!(
        stores.projections.len(),
        0,
        "the empty strategy derives nothing — selection, not projection, ran"
    );
}

#[test]
fn an_unknown_id_is_an_error() {
    let registry = StrategyRegistry::with_builtins();
    let result = registry.build("nope");
    assert_eq!(result.err(), Some(UnknownStrategy("nope".into())));
}

#[test]
fn a_registered_strategy_is_selected_by_its_id() {
    let log = seeded_log();
    let mut registry = StrategyRegistry::with_builtins();
    registry.register("also-empty", BuiltinStrategy::Empty);
    let stores = registry
        .build("also-empty")
        .expect("registered")
        .run(&mut ports(), &log);
    assert_eq!(stores.projections.len(), 0);
}

struct Doubler;

impl Step for Doubler {
    type In = u64;
    type Out = u64;
    type Memory = ();

    fn kind(&self) -> &'static str {
        "probe.doubler"
    }

    fn version(&self) -> StepVersion {
        StepVersion::new("v1")
    }

    fn run(&mut self, n: &u64) -> u64 {
        n * 2
    }
}

struct Incrementer;

impl Step for Incrementer {
    type In = u64;
    type Out = u64;
    type Memory = ();

    fn kind(&self) -> &'static str {
        "probe.incrementer"
    }

    fn version(&self) -> StepVersion {
        StepVersion::new("v1")
    }

    fn run(&mut self, n: &u64) -> u64 {
        n + 1
    }
}

struct ProbeStrategy {
    doubler: Doubler,
    incrementer: Incrementer,
}

impl Strategy for ProbeStrategy {
    type Input = [u64];
    type Output = Vec<u64>;

    fn run(&mut self, input: &[u64]) -> Vec<u64> {
        input
            .iter()
            .map(|n| {
                let doubled = self.doubler.run(n);
                self.incrementer.run(&doubled)
            })
            .collect()
    }
}

#[test]
fn a_domain_free_strategy_composes_steps() {
    let mut strategy = ProbeStrategy {
        doubler: Doubler,
        incrementer: Incrementer,
    };
    assert_eq!(strategy.run(&[1, 2, 3]), vec![3, 5, 7]);
}

#[test]
fn payloads_fan_out() {
    let log = seeded_log().all();
    let names = per_message(&log, |m| m.id.0.clone());
    assert_eq!(names, vec!["m-1", "m-2", "m-3"]);
    let groups = vec![
        (ConversationId("c-1".into()), ids(&["m-1", "m-2"])),
        (ConversationId("c-2".into()), ids(&["m-3"])),
    ];
    let sizes = per_conversation(&groups, |c, m| (c.0.clone(), m.len()));
    assert_eq!(sizes, vec![("c-1".to_string(), 2), ("c-2".to_string(), 1)]);
    assert_eq!(global(|| 7u64), vec![7]);
}

/// A strategy that notes that it ran.
struct Noting {
    ran: Rc<Cell<bool>>,
}

impl ReplayStrategy<Ports> for Noting {
    fn run<M: MessageStore>(&self, _context: &mut Ports, _log: &M) -> ReplayStores {
        self.ran.set(true);
        ReplayStores::new()
    }
}

#[test]
fn a_submitted_job_runs_the_named_strategy() {
    let ran = Rc::new(Cell::new(false));
    let mut registry = StrategyRegistry::new();
    registry.register("probe", Noting { ran: ran.clone() });
    let log = seeded_log();
    let mut context = ports();
    let mut cache = InMemoryDerivedOutputCache::new();
    StrategyRunJob::new(&log, &mut context, registry, &mut cache)
        .run(&StrategyRunRequest {
            strategy: "probe".into(),
        })
        .expect("run");
    assert!(
        ran.get(),
        "the submission reached and ran the strategy named by its id"
    );
}

#[test]
fn a_consumed_run_populates_the_cache() {
    let mut log = InMemoryMessageStore::new();
    log.append(said(
        "m-1",
        "c-1",
        "u-1",
        "We will use sqlite for the auth sdk.",
    ));
    let mut context = ports();
    let mut cache = InMemoryDerivedOutputCache::new();
    StrategyRunJob::with_builtins(&log, &mut context, &mut cache)
        .run(&StrategyRunRequest {
            strategy: StrategyRegistry::DEFAULT.into(),
        })
        .expect("run");

    let version = derivation_version(StrategyRegistry::DEFAULT, &context.projector.version());
    let derivation = cache
        .get(
            &version,
            &conversation(),
            &content_hash(&log, &conversation()),
        )
        .expect("consumed run populated the cache");
    assert_eq!(derivation.projections.len(), log.len());
}

/// A cache that reclaims superseded entries and notes what it was asked.
#[derive(Default)]
struct Reclaiming {
    held: Vec<(String, String, String)>,
    calls: Vec<String>,
}

impl DerivedOutputCache for Reclaiming {
    fn get(
        &self,
        _version: &StepVersion,
        _conversation: &ConversationId,
        _content: &str,
    ) -> Option<ConversationDerivation> {
        None
    }

    fn put(
        &mut self,
        version: &StepVersion,
        conversation: &ConversationId,
        content: &str,
        _value: ConversationDerivation,
    ) {
        self.calls.push(format!("put {}", conversation.0));
        let entry = (
            version.as_str().into(),
            conversation.0.clone(),
            content.into(),
        );
        if !self.held.contains(&entry) {
            self.held.push(entry);
        }
    }

    fn reclaim_superseded(
        &mut self,
        conversation: &ConversationId,
        keep_version: &StepVersion,
        keep_content: &str,
    ) {
        self.calls.push(format!("reclaim {}", conversation.0));
        self.held.retain(|(version, c, content)| {
            *c != conversation.0 || (version == keep_version.as_str() && content == keep_content)
        });
    }
}

#[test]
fn populating_reclaims_what_each_conversation_supersedes() {
    let mut log = seeded_log();
    let mut cache = Reclaiming::default();
    let version = StepVersion::new("v1");
    let stores = ports().run(&log);
    populate_cache(&log, &stores, &mut cache, &version);
    assert_eq!(
        cache.calls,
        ["put c-1", "reclaim c-1", "put c-2", "reclaim c-2"]
    );
    let first = cache.held.clone();
    assert_eq!(first.len(), 2);
    assert_eq!(first[0].2, content_hash(&log, &conversation()));

    log.append(said("m-late", "c-1", "u-1", "One more thing about auth."));
    let stores = ports().run(&log);
    populate_cache(&log, &stores, &mut cache, &version);
    assert_eq!(cache.held.len(), 2, "the older output of c-1 is gone");
    assert!(!cache.held.contains(&first[0]));
    assert!(cache.held.contains(&first[1]));
}

#[test]
fn a_cache_in_memory_keeps_what_is_superseded() {
    let mut log = seeded_log();
    let mut cache = InMemoryDerivedOutputCache::new();
    let version = StepVersion::new("v1");
    let stores = ports().run(&log);
    populate_cache(&log, &stores, &mut cache, &version);
    let older = content_hash(&log, &conversation());
    log.append(said("m-late", "c-1", "u-1", "One more thing about auth."));
    let stores = ports().run(&log);
    populate_cache(&log, &stores, &mut cache, &version);
    let newer = content_hash(&log, &conversation());
    assert_ne!(older, newer);
    assert!(cache.get(&version, &conversation(), &older).is_some());
    assert!(cache.get(&version, &conversation(), &newer).is_some());
}

#[test]
fn an_unknown_strategy_fails_rather_than_panics() {
    let log = seeded_log();
    let mut context = ports();
    let mut cache = InMemoryDerivedOutputCache::new();
    let result = StrategyRunJob::with_builtins(&log, &mut context, &mut cache).run(
        &StrategyRunRequest {
            strategy: "nope".into(),
        },
    );
    assert_eq!(result, Err(UnknownStrategy("nope".into())));
}

#[test]
fn content_hashes_agree_and_follow_the_content() {
    let mut log = seeded_log();
    let c1 = conversation();
    assert_eq!(
        conversations(&log),
        vec![ConversationId("c-1".into()), ConversationId("c-2".into())]
    );
    assert_eq!(messages_in(&log, &c1), ids(&["m-1", "m-2"]));
    let before = content_hash(&log, &c1);
    assert_eq!(before, content_hash_of(&log.messages_for(&c1)));
    assert_eq!(before.len(), 16);
    log.append(said("m-9", "c-2", "u-1", "elsewhere"));
    assert_eq!(before, content_hash(&log, &c1), "other conversations do not matter");
    log.append(said("m-2", "c-1", "u-1", "edited"));
    let edited = content_hash(&log, &c1);
    assert_ne!(before, edited);
    log.append(said("m-10", "c-1", "u-1", "appended"));
    assert_ne!(edited, content_hash(&log, &c1));
}

#[test]
fn a_conversation_without_a_warmup_has_no_derivation() {
    let log = seeded_log();
    assert!(derivation_for(&log, &ReplayStores::new(), &conversation()).is_none());
    let stores = ports().run(&log);
    let derivation = derivation_for(&log, &stores, &conversation()).expect("derived");
    assert_eq!(derivation.projections.len(), 2);
    assert_eq!(derivation.hints.len(), 2);
    assert!(derivation.scope.is_some());
    assert!(derivation.developers.is_some());
}

#[test]
fn lanes_are_valid() {
    assert_eq!(routed_work_lane().as_str(), ROUTED_WORK_LANE);
    assert_eq!(strategy_run_lane().as_str(), STRATEGY_RUN_LANE);
    assert_ne!(routed_work_lane(), strategy_run_lane());
}

#[test]
fn routed_work_is_unique_per_message() {
    assert_eq!(
        unique_key(&MessageId("m-1".into())),
        "mirrorlane.routed_work:m-1"
    );
    let decision = RoutingDecision {
        message_id: MessageId("m-1".into()),
        target: ConsumerKind::WorklaneJob,
        reason: "test".into(),
        escalated: false,
    };
    let (key, payload) = RoutedWork::enqueue_request(&decision, &intended("m-1", Intent::Task));
    assert_eq!(key, unique_key(&decision.message_id));
    assert_eq!(payload.message_id, decision.message_id);
    assert_eq!(payload.projection, intended("m-1", Intent::Task));
    assert_ne!(key, unique_key(&MessageId("m-2".into())));
}

#[test]
fn finished_jobs_are_recorded_in_order() {
    let mut observer = RecordingJobObserver::new();
    observer.on_job_finished("lane", "kind", JobOutcome::Acked, 1_999_999);
    observer.on_job_finished("lane", "kind", JobOutcome::Retried, 0);
    observer.on_job_finished("lane", "kind", JobOutcome::DeadLettered, 2_000_000);
    observer.on_job_finished("lane", "kind", JobOutcome::Other, 5);
    let records = observer.records();
    let labels: Vec<&str> = records.iter().map(|r| r.outcome_label()).collect();
    assert_eq!(labels, vec!["acked", "retried", "dead_lettered", "unknown"]);
    assert_eq!(records[0].duration_ms(), 1);
    assert_eq!(records[2].duration_ms(), 2);
    assert_eq!(records[0].lane, "lane");
}
