//! The language-model seam.

use mirrorlane::double::Double;
use mirrorlane::llm::fingerprint;
use mirrorlane::llm::ollama::OllamaClient;
use mirrorlane::llm::openai::first_content;
use mirrorlane::llm::openai::OpenAiClient;
use mirrorlane::llm::openai::DEFAULT_BASE_URL;
use mirrorlane::llm::projection_prompt;
use mirrorlane::llm::prompt_fingerprint;
use mirrorlane::llm::version_tag;
use mirrorlane::llm::JsonPost;
use mirrorlane::llm::LlmClient;
use mirrorlane::llm::LlmProjector;
use mirrorlane::llm::ProjectionAnswer;
use mirrorlane::model::message::Author;
use mirrorlane::model::message::AuthorId;
use mirrorlane::model::message::Conversation;
use mirrorlane::model::message::ConversationId;
use mirrorlane::model::message::MessageEnvelope;
use mirrorlane::model::message::MessageId;
use mirrorlane::model::message::Source;
use mirrorlane::model::projection::Entity;
use mirrorlane::model::projection::Intent;
use mirrorlane::model::projection::Topic;
use std::collections::hash_map::DefaultHasher;
use std::hash::Hash;
use std::hash::Hasher;

fn d(x: f64) -> Double {
    Double::from_bits(x.to_bits())
}

fn id() -> MessageId {
    MessageId("m-1".into())
}

fn message(body: &str) -> MessageEnvelope {
    MessageEnvelope {
        id: id(),
        source: Source::Manual,
        author: Author {
            id: AuthorId("u-1".into()),
            display_name: "Dev".into(),
        },
        conversation: Conversation {
            id: ConversationId("c-1".into()),
            thread: None,
        },
        body: body.into(),
    }
}

struct Stub;

impl LlmClient for Stub {
    fn provider_tag(&self) -> &'static str {
        "stub"
    }

    fn request(&self, model: &str, prompt: &str) -> JsonPost {
        JsonPost {
            url: model.to_string(),
            authorization: None,
            body: prompt.to_string(),
        }
    }
}

#[test]
fn well_formed_response_becomes_projection() {
    let answer = ProjectionAnswer {
        intent: Intent::Task,
        topics: vec!["rust".into(), "auth".into()],
        entities: vec!["refresh-token".into()],
        confidence: d(0.86),
    };
    let p = answer.into_projection(&id());
    assert_eq!(
        p.message_id,
        id(),
        "id comes from the envelope, not the model"
    );
    assert_eq!(p.intent, Intent::Task);
    assert_eq!(p.topics, vec![Topic("rust".into()), Topic("auth".into())]);
    assert_eq!(p.entities, vec![Entity("refresh-token".into())]);
    assert_eq!(p.confidence.get(), d(0.86));
}

#[test]
fn out_of_range_confidence_is_clamped() {
    let answer = ProjectionAnswer {
        intent: Intent::Social,
        topics: vec![],
        entities: vec![],
        confidence: d(1.7),
    };
    assert_eq!(answer.into_projection(&id()).confidence.get(), d(1.0));
}

#[test]
fn version_tag_encodes_provider_model_and_prompt() {
    assert_eq!(
        version_tag("ollama", "llama3.2", "v1"),
        "ollama:llama3.2:v1"
    );
    assert_ne!(
        version_tag("ollama", "llama3.2", "v1"),
        version_tag("openai", "llama3.2", "v1")
    );
    assert_ne!(
        version_tag("ollama", "llama3.2", "v1"),
        version_tag("ollama", "mistral", "v1")
    );
    assert_ne!(
        version_tag("ollama", "llama3.2", "v1"),
        version_tag("ollama", "llama3.2", "v2")
    );
}

#[test]
fn projector_over_a_stub_client_parses() {
    let projector = LlmProjector::new(Stub, "m", "v1");
    let asked = projector.request(&message("anything"));
    assert_eq!(asked.url, "m");
    assert_eq!(asked.body, projection_prompt("anything"));
    let p = projector.accept(
        &message("anything"),
        ProjectionAnswer {
            intent: Intent::Decision,
            topics: vec!["db".into()],
            entities: vec![],
            confidence: d(0.5),
        },
    );
    assert_eq!(p.message_id, id());
    assert_eq!(p.intent, Intent::Decision);
    assert!(
        projector
            .cache_version()
            .starts_with(&format!("stub:m:v1:{}", prompt_fingerprint())),
        "cache version is the tag plus the prompt fingerprint"
    );
}

#[test]
fn prompt_fingerprint_is_stable_and_content_sensitive() {
    assert_eq!(prompt_fingerprint(), prompt_fingerprint());
    assert_ne!(fingerprint("template A"), fingerprint("template B"));
    let mut hasher = DefaultHasher::new();
    format!("{}\n1", projection_prompt("")).hash(&mut hasher);
    assert_eq!(prompt_fingerprint(), format!("{:016x}", hasher.finish()));
}

#[test]
fn version_appends_the_fingerprint() {
    let projector = LlmProjector::new(Stub, "m", "v1");
    let v = projector.cache_version();
    assert_eq!(
        v.matches(':').count(),
        3,
        "provider:model:version:fingerprint"
    );
    assert!(v.ends_with(&prompt_fingerprint()));
    assert_eq!(projector.version().as_str(), v);
}

#[test]
fn the_prompt_asks_for_the_four_fields() {
    let expected = "You classify a team chat message into structured JSON.\nRespond with ONLY a JSON object with EXACTLY these four REQUIRED fields (never omit any):\n- \"intent\": one of \"question\", \"decision\", \"proposal\", \"task\", \"issue\", \"social\"\n- \"topics\": array of short lowercase strings (e.g. \"rust\", \"auth\")\n- \"entities\": array of short plain strings naming concrete things (e.g. \"refresh-token\"); NOT objects\n- \"confidence\": a number from 0.0 to 1.0 — ALWAYS include this field\nAll four fields are mandatory. \"topics\" and \"entities\" are arrays of strings only; do not nest or rename fields.\nMessage:\nhello";
    assert_eq!(projection_prompt("hello"), expected);
}

#[test]
fn ollama_projector_version_tag_is_prefixed_by_the_provider_tag() {
    let projector = LlmProjector::new(OllamaClient::with_defaults(), "m", "v2");
    assert!(projector.cache_version().starts_with("ollama:m:v2:"));
}

#[test]
fn provider_tag_is_openai() {
    assert_eq!(
        OpenAiClient::new(DEFAULT_BASE_URL, None).provider_tag(),
        "openai"
    );
}

#[test]
fn requests_carry_escaped_json() {
    let post = OllamaClient::new("http://host").request("m", "say \"hi\"\n");
    assert_eq!(post.url, "http://host/api/generate");
    assert_eq!(post.authorization, None);
    assert_eq!(
        post.body,
        "{\"format\":\"json\",\"model\":\"m\",\"prompt\":\"say \\\"hi\\\"\\n\",\"stream\":false}"
    );
    let parsed: serde_json::Value = serde_json::from_str(&post.body).expect("valid JSON");
    assert_eq!(parsed["prompt"], "say \"hi\"\n");
    assert_eq!(parsed["stream"], false);

    let post = OpenAiClient::new("http://host/v1", Some("key".into())).request("m", "a\\b");
    assert_eq!(post.url, "http://host/v1/chat/completions");
    assert_eq!(post.authorization.as_deref(), Some("Bearer key"));
    let parsed: serde_json::Value = serde_json::from_str(&post.body).expect("valid JSON");
    assert_eq!(parsed["messages"][0]["content"], "a\\b");
    assert_eq!(parsed["messages"][0]["role"], "user");
    assert_eq!(parsed["model"], "m");
    assert_eq!(parsed["response_format"]["type"], "json_object");
    assert_eq!(
        OpenAiClient::new(DEFAULT_BASE_URL, None).request("m", "p").authorization,
        None
    );
}

#[test]
fn the_first_choice_counts() {
    assert_eq!(
        first_content(vec!["a".into(), "b".into()]).as_deref(),
        Some("a")
    );
    assert_eq!(first_content(Vec::new()), None);
}
