//! The domain model, its stores and its caches.

use mirrorlane::double::Double;
use mirrorlane::model::derivation::derivation_version;
use mirrorlane::model::derivation::ConversationDerivation;
use mirrorlane::model::derivation::DerivedOutputCache;
use mirrorlane::model::derivation::InMemoryDerivedOutputCache;
use mirrorlane::model::derivation::DERIVATION_SCHEMA_VERSION;
use mirrorlane::model::message::Author;
use mirrorlane::model::message::AuthorId;
use mirrorlane::model::message::Conversation;
use mirrorlane::model::message::ConversationId;
use mirrorlane::model::message::MessageEnvelope;
use mirrorlane::model::message::MessageId;
use mirrorlane::model::message::Source;
use mirrorlane::model::message_log::InMemoryMessageStore;
use mirrorlane::model::message_log::MessageStore;
use mirrorlane::model::cache::InMemoryProjectionCache;
use mirrorlane::model::projection::Confidence;
use mirrorlane::model::projection::Intent;
use mirrorlane::model::projection::Projection;
use mirrorlane::model::projection::Topic;
use mirrorlane::model::routing::Consumer;
use mirrorlane::model::routing::ConsumerError;
use mirrorlane::model::routing::ConsumerKind;
use mirrorlane::model::routing::ConsumerRegistry;
use mirrorlane::model::routing::RoutingDecision;
use mirrorlane::model::routing::RoutingHint;
use mirrorlane::model::routing::RoutingTrace;
use mirrorlane::model::scope::Scope;
use mirrorlane::model::skill::DeveloperSnapshot;
use mirrorlane::model::skill::ExpertCandidate;
use mirrorlane::model::skill::SessionDevelopers;
use mirrorlane::model::skill::SkillScore;
use mirrorlane::model::skill::TopicOwnership;
use mirrorlane::model::store::DeveloperSnapshotStore;
use mirrorlane::model::store::InMemoryDeveloperSnapshotStore;
use mirrorlane::model::store::InMemoryProjectionStore;
use mirrorlane::model::store::InMemoryRoutingHintStore;
use mirrorlane::model::store::InMemoryRoutingStore;
use mirrorlane::model::store::InMemoryRoutingTraceStore;
use mirrorlane::model::store::InMemoryScopeStore;
use mirrorlane::model::store::InMemorySkillStore;
use mirrorlane::model::store::InMemoryWarmupStore;
use mirrorlane::model::store::ProjectionStore;
use mirrorlane::model::store::RoutingHintStore;
use mirrorlane::model::store::RoutingStore;
use mirrorlane::model::store::RoutingTraceStore;
use mirrorlane::model::store::ScopeStore;
use mirrorlane::model::store::SkillStore;
use mirrorlane::model::store::WarmupStore;
use mirrorlane::model::warmup::WarmupDocument;
use mirrorlane::runtime::cache::Cache;
use mirrorlane::runtime::cache::CacheKey;
use mirrorlane::runtime::step::StepVersion;
use std::collections::hash_map::DefaultHasher;
use std::hash::Hash;
use std::hash::Hasher;

fn d(x: f64) -> Double {
    Double::from_bits(x.to_bits())
}

fn value(x: Double) -> f64 {
    f64::from_bits(x.to_bits())
}

fn message(id: &str, body: &str) -> MessageEnvelope {
    MessageEnvelope {
        id: MessageId(id.into()),
        source: Source::Manual,
        author: Author {
            id: AuthorId("u-1".into()),
            display_name: "Dev".into(),
        },
        conversation: Conversation {
            id: ConversationId("c-1".into()),
            thread: None,
        },
        body: body.into(),
    }
}

fn projection(id: &str, confidence: f64) -> Projection {
    Projection {
        message_id: MessageId(id.into()),
        intent: Intent::Social,
        topics: Vec::new(),
        entities: Vec::new(),
        confidence: Confidence::new(d(confidence)),
    }
}

#[test]
fn confidence_is_clamped_into_range() {
    assert_eq!(value(Confidence::new(d(1.5)).get()), 1.0);
    assert_eq!(value(Confidence::new(d(-0.2)).get()), 0.0);
    assert_eq!(value(Confidence::new(d(0.86)).get()), 0.86);
    assert_eq!(value(Confidence::from(d(1.5)).get()), 1.0);
}

#[test]
fn skill_score_is_clamped_into_range() {
    assert_eq!(value(SkillScore::new(d(1.5)).get()), 1.0);
    assert_eq!(value(SkillScore::new(d(-0.2)).get()), 0.0);
    assert_eq!(value(SkillScore::new(d(0.5)).get()), 0.5);
    assert_eq!(value(SkillScore::from(d(-3.0)).get()), 0.0);
}

#[test]
fn message_cache_key_covers_id_and_body() {
    assert_eq!(
        message("m-1", "hello").cache_key(),
        message("m-1", "hello").cache_key()
    );
    let mut edited = message("m-1", "hello");
    edited.body = "hello, edited".into();
    assert_ne!(message("m-1", "hello").cache_key(), edited.cache_key());
}

#[test]
fn message_cache_key_is_the_hash_of_both_texts() {
    for (id, body) in [("m-1", "hello"), ("", ""), ("é", "日本"), ("ab", "c")] {
        let mut hasher = DefaultHasher::new();
        String::from(id).hash(&mut hasher);
        String::from(body).hash(&mut hasher);
        assert_eq!(
            message(id, body).cache_key(),
            format!("{:016x}", hasher.finish())
        );
    }
    assert_ne!(message("ab", "c").cache_key(), message("a", "bc").cache_key());
}

#[test]
fn projection_cache_round_trips_and_misses_on_version() {
    let mut cache = InMemoryProjectionCache::new();
    let v1 = StepVersion::new("v1");
    let key = message("m-1", "hello").cache_key();
    cache.put("proj", &v1, &key, projection("m-1", 0.5));
    assert_eq!(cache.get("proj", &v1, &key), Some(projection("m-1", 0.5)));
    assert!(cache.get("proj", &StepVersion::new("v2"), &key).is_none());
}

#[test]
fn version_varies_with_strategy_and_projector_and_embeds_schema() {
    let p1 = StepVersion::new("p1");
    let p2 = StepVersion::new("p2");
    assert_ne!(
        derivation_version("projection", &p1).as_str(),
        derivation_version("custom", &p1).as_str(),
        "different strategies must not collide"
    );
    assert_ne!(
        derivation_version("projection", &p1).as_str(),
        derivation_version("projection", &p2).as_str(),
        "a projector version change must miss"
    );
    assert!(
        derivation_version("projection", &p1)
            .as_str()
            .starts_with(DERIVATION_SCHEMA_VERSION),
        "the schema version is part of the key"
    );
    assert_eq!(derivation_version("projection", &p1).as_str(), "1:projection:p1");
}

#[test]
fn versions_of_ids_that_do_not_start_each_other_are_apart() {
    let p = StepVersion::new("b:p");
    let q = StepVersion::new("p");
    for (a, b) in [("a", "ab"), ("a:b", "a:c"), ("x:y", "y:x")] {
        assert_ne!(
            derivation_version(a, &p).as_str(),
            derivation_version(b, &q).as_str()
        );
    }
    assert_eq!(
        derivation_version("a", &p).as_str(),
        derivation_version("a:b", &q).as_str()
    );
}

fn derivation(conversation: &str) -> ConversationDerivation {
    ConversationDerivation {
        conversation: ConversationId(conversation.into()),
        projections: Vec::new(),
        scope: None,
        warmup: WarmupDocument {
            conversation: ConversationId(conversation.into()),
            focus: Vec::new(),
            decisions: Vec::new(),
            open_questions: Vec::new(),
            tasks: Vec::new(),
            summary: "s".into(),
        },
        developers: None,
        hints: Vec::new(),
    }
}

#[test]
fn in_memory_cache_does_not_alias_on_delimiters() {
    let mut cache = InMemoryDerivedOutputCache::new();
    let version = StepVersion::new("1:projection:v1");
    let conv = ConversationId("github:acme/widgets".into());
    cache.put(&version, &conv, "hash", derivation("github:acme/widgets"));

    assert!(
        cache
            .get(
                &StepVersion::new("1:projection"),
                &ConversationId("v1:github:acme/widgets".into()),
                "hash",
            )
            .is_none(),
        "a different version/conversation split must not alias"
    );
    assert_eq!(
        cache.get(&version, &conv, "hash"),
        Some(derivation("github:acme/widgets"))
    );
    cache.reclaim_superseded(&conv, &version, "other");
    assert!(
        cache.get(&version, &conv, "hash").is_some(),
        "a cache that does not grow on disk keeps all"
    );
}

#[test]
fn appending_same_id_twice_keeps_one_entry() {
    let mut log = InMemoryMessageStore::new();
    log.append(message("m-1", "first"));
    log.append(message("m-1", "second"));

    assert_eq!(log.len(), 1, "same id must not duplicate");
    assert_eq!(log.get(&MessageId("m-1".into())).unwrap().body, "second");
}

#[test]
fn all_preserves_append_order() {
    let mut log = InMemoryMessageStore::new();
    assert!(log.is_empty());
    log.append(message("m-3", "c"));
    log.append(message("m-1", "a"));
    log.append(message("m-2", "b"));

    let ids: Vec<String> = log.all().into_iter().map(|m| m.id.0).collect();
    assert_eq!(ids, vec!["m-3", "m-1", "m-2"]);
    log.append(message("m-1", "edited"));
    let ids: Vec<String> = log.all().into_iter().map(|m| m.id.0).collect();
    assert_eq!(ids, vec!["m-3", "m-1", "m-2"], "an edit stays in place");
    assert!(log.get(&MessageId("absent".into())).is_none());
}

fn message_in(id: &str, conv: &str, body: &str) -> MessageEnvelope {
    let mut m = message(id, body);
    m.conversation.id = ConversationId(conv.into());
    m
}

#[test]
fn conversation_ids_and_messages_for_match_all() {
    let mut log = InMemoryMessageStore::new();
    log.append(message_in("m-1", "c-1", "a"));
    log.append(message_in("m-2", "c-2", "b"));
    log.append(message_in("m-3", "c-1", "c"));

    assert_eq!(
        log.conversation_ids(),
        vec![ConversationId("c-1".into()), ConversationId("c-2".into())]
    );
    let c1: Vec<String> = log
        .messages_for(&ConversationId("c-1".into()))
        .into_iter()
        .map(|m| m.id.0)
        .collect();
    assert_eq!(c1, vec!["m-1", "m-3"]);
    assert!(
        log.messages_for(&ConversationId("absent".into()))
            .is_empty(),
        "an absent conversation yields no messages"
    );
}

#[test]
fn upsert_is_keyed_by_message_id() {
    let mut store = InMemoryProjectionStore::new();
    assert!(store.is_empty());
    store.upsert(projection("m-1", 0.1));
    store.upsert(projection("m-1", 0.9));

    assert_eq!(store.len(), 1, "same id must not duplicate");
    assert_eq!(
        value(
            store
                .get(&MessageId("m-1".into()))
                .unwrap()
                .confidence
                .get()
        ),
        0.9
    );
}

#[test]
fn get_returns_stored_projection() {
    let mut store = InMemoryProjectionStore::new();
    let p = projection("m-2", 0.5);
    store.upsert(p.clone());
    assert_eq!(store.get(&MessageId("m-2".into())), Some(p));
    assert_eq!(store.get(&MessageId("m-3".into())), None);
}

fn scope(conversation: &str, reason: &str) -> Scope {
    Scope {
        conversation: ConversationId(conversation.into()),
        load: Vec::new(),
        ignore: Vec::new(),
        reason: reason.into(),
        confidence: Confidence::new(d(0.0)),
    }
}

#[test]
fn scope_upsert_is_keyed_by_conversation_id() {
    let mut store = InMemoryScopeStore::new();
    store.upsert(scope("c-1", "first"));
    store.upsert(scope("c-1", "second"));

    assert_eq!(store.len(), 1, "same conversation must not duplicate");
    assert_eq!(
        store.get(&ConversationId("c-1".into())).unwrap().reason,
        "second"
    );
}

fn document(conversation: &str, summary: &str) -> WarmupDocument {
    WarmupDocument {
        conversation: ConversationId(conversation.into()),
        focus: Vec::new(),
        decisions: Vec::new(),
        open_questions: Vec::new(),
        tasks: Vec::new(),
        summary: summary.into(),
    }
}

#[test]
fn warmup_resume_returns_stored_document() {
    let mut store = InMemoryWarmupStore::new();
    let doc = document("c-1", "first");
    store.upsert(doc.clone());
    assert_eq!(store.get(&ConversationId("c-1".into())), Some(doc));
}

#[test]
fn warmup_upsert_is_keyed_by_conversation_id() {
    let mut store = InMemoryWarmupStore::new();
    store.upsert(document("c-1", "first"));
    store.upsert(document("c-1", "second"));

    assert_eq!(store.len(), 1, "same conversation must not duplicate");
    assert_eq!(
        store.get(&ConversationId("c-1".into())).unwrap().summary,
        "second"
    );
}

fn ownership(topic: &str, score: f64) -> TopicOwnership {
    TopicOwnership {
        topic: Topic(topic.into()),
        candidates: vec![ExpertCandidate {
            author: AuthorId("u-1".into()),
            display_name: "Dev".into(),
            score: SkillScore::new(d(score)),
        }],
    }
}

#[test]
fn skill_upsert_is_keyed_by_topic() {
    let mut store = InMemorySkillStore::new();
    store.upsert(ownership("auth", 0.4));
    store.upsert(ownership("auth", 0.9));

    assert_eq!(store.len(), 1, "same topic must not duplicate");
    assert_eq!(
        value(
            store.get(&Topic("auth".into())).unwrap().candidates[0]
                .score
                .get()
        ),
        0.9
    );
}

fn decision(message: &str, reason: &str) -> RoutingDecision {
    RoutingDecision {
        message_id: MessageId(message.into()),
        target: ConsumerKind::Human,
        reason: reason.into(),
        escalated: false,
    }
}

#[test]
fn routing_upsert_is_keyed_by_message_id() {
    let mut store = InMemoryRoutingStore::new();
    store.upsert(decision("m-1", "first"));
    store.upsert(decision("m-1", "second"));

    assert_eq!(store.len(), 1, "same message must not duplicate");
    assert_eq!(
        store.get(&MessageId("m-1".into())).unwrap().reason,
        "second"
    );
}

fn hint(message: &str, reviewer: &str) -> RoutingHint {
    let candidate = ExpertCandidate {
        author: AuthorId(reviewer.into()),
        display_name: reviewer.into(),
        score: SkillScore::new(d(1.0)),
    };
    RoutingHint {
        message_id: MessageId(message.into()),
        reviewers: vec![candidate.clone()],
        human_hint: Some(candidate),
    }
}

#[test]
fn routing_hint_upsert_is_keyed_by_message_id() {
    let mut store = InMemoryRoutingHintStore::new();
    store.upsert(hint("m-1", "alice"));
    store.upsert(hint("m-1", "bob"));

    assert_eq!(store.len(), 1, "same message must not duplicate");
    assert_eq!(
        store.get(&MessageId("m-1".into())).unwrap().human_hint,
        Some(ExpertCandidate {
            author: AuthorId("bob".into()),
            display_name: "bob".into(),
            score: SkillScore::new(d(1.0)),
        }),
        "upsert keeps the most recent hint"
    );
}

fn session_developers(conversation: &str, display_name: &str) -> SessionDevelopers {
    SessionDevelopers {
        conversation: ConversationId(conversation.into()),
        developers: vec![DeveloperSnapshot {
            author: AuthorId("u-1".into()),
            display_name: display_name.into(),
            topics: Vec::new(),
        }],
    }
}

#[test]
fn developer_snapshot_upsert_is_keyed_by_conversation_id() {
    let mut store = InMemoryDeveloperSnapshotStore::new();
    store.upsert(session_developers("c-1", "first"));
    store.upsert(session_developers("c-1", "second"));

    assert_eq!(store.len(), 1, "same conversation must not duplicate");
    assert_eq!(
        store.get(&ConversationId("c-1".into())).unwrap().developers[0].display_name,
        "second"
    );
}

#[test]
fn trace_upsert_is_keyed_by_message_id() {
    let mut store = InMemoryRoutingTraceStore::new();
    assert!(store.is_empty());
    for _ in 0..2 {
        store.upsert(RoutingTrace {
            message_id: MessageId("m-1".into()),
            steps: Vec::new(),
        });
    }
    assert_eq!(store.len(), 1);
    assert!(store.get(&MessageId("m-1".into())).is_some());
    assert!(store.get(&MessageId("m-2".into())).is_none());
}

#[derive(Default)]
struct Spy {
    seen: Vec<MessageId>,
    fails: bool,
}

impl Consumer for Spy {
    fn consume(
        &mut self,
        decision: &RoutingDecision,
        _projection: &Projection,
    ) -> Result<(), ConsumerError> {
        if self.fails {
            return Err(ConsumerError::new("boom"));
        }
        self.seen.push(decision.message_id.clone());
        Ok(())
    }
}

fn routed(target: ConsumerKind) -> RoutingDecision {
    RoutingDecision {
        message_id: MessageId("m-1".into()),
        target,
        reason: "test".into(),
        escalated: false,
    }
}

#[test]
fn dispatch_reaches_the_target_consumer() {
    let mut registry = ConsumerRegistry::new();
    registry.register(ConsumerKind::Agent, Spy::default());

    registry
        .dispatch(&routed(ConsumerKind::Agent), &projection("m-1", 0.9))
        .expect("dispatch succeeds");
    assert_eq!(
        registry
            .consumer_for(ConsumerKind::Agent)
            .unwrap()
            .seen
            .len(),
        1
    );
}

#[test]
fn dispatch_to_an_unregistered_target_is_a_noop() {
    let mut registry = ConsumerRegistry::default();
    registry.register(ConsumerKind::Agent, Spy::default());

    registry
        .dispatch(&routed(ConsumerKind::Human), &projection("m-1", 0.9))
        .expect("unregistered target is a successful no-op");
    assert!(registry
        .consumer_for(ConsumerKind::Agent)
        .unwrap()
        .seen
        .is_empty());
    assert!(registry.consumer_for(ConsumerKind::Human).is_none());
}

#[test]
fn a_consumer_error_propagates_from_dispatch() {
    let mut registry = ConsumerRegistry::new();
    registry.register(
        ConsumerKind::Agent,
        Spy {
            seen: Vec::new(),
            fails: true,
        },
    );
    let err = registry
        .dispatch(&routed(ConsumerKind::Agent), &projection("m-1", 0.9))
        .expect_err("a consumer error propagates");
    assert_eq!(err, ConsumerError::new("boom"));
    assert_eq!(err.message(), "consumer error: boom");
}
