//! The language-model seam: the projection prompt, what a model's answer means,
//! and what is asked of a backend.

use crate::model::digest::digest;
use crate::model::digest::Digest;
use crate::model::message::MessageEnvelope;
use crate::model::message::MessageId;
use crate::model::projection::Confidence;
use crate::model::projection::Entity;
use crate::model::projection::Intent;
use crate::model::projection::Projection;
use crate::model::projection::ProjectionView;
use crate::model::projection::Topic;
use crate::double::Double;
use crate::model::seqs::view_of;
use crate::model::seqs::views;
use crate::runtime::step::StepVersion;
use crate::text::cat;
use crate::text::cat3;
use crate::text::digit;
use vstd::prelude::*;

pub mod ollama;
pub mod openai;

verus! {

/// The default prompt version, a label that a deployment can set.
pub const DEFAULT_PROMPT_VERSION: &'static str = "v2";

/// The version of the answer's interpretation, folded into the prompt
/// fingerprint.
const PARSER_VERSION: &'static str = "1";

/// The fixed part of the projection prompt.
pub const PROMPT_TEMPLATE: &'static str = "You classify a team chat message into structured JSON.\n\
     Respond with ONLY a JSON object with EXACTLY these four REQUIRED fields (never omit any):\n\
     - \"intent\": one of \"question\", \"decision\", \"proposal\", \"task\", \"issue\", \"social\"\n\
     - \"topics\": array of short lowercase strings (e.g. \"rust\", \"auth\")\n\
     - \"entities\": array of short plain strings naming concrete things (e.g. \"refresh-token\"); NOT objects\n\
     - \"confidence\": a number from 0.0 to 1.0 — ALWAYS include this field\n\
     All four fields are mandatory. \"topics\" and \"entities\" are arrays of strings only; do not nest or rename fields.\n\
     Message:\n";

/// A character inside a JSON string: quotes, backslashes and control characters
/// are escaped, with a short form where JSON has one.
pub open spec fn json_escaped(c: char) -> Seq<char> {
    if c == '"' {
        seq!['\\', '"']
    } else if c == '\\' {
        seq!['\\', '\\']
    } else if c == '\u{8}' {
        seq!['\\', 'b']
    } else if c == '\t' {
        seq!['\\', 't']
    } else if c == '\n' {
        seq!['\\', 'n']
    } else if c == '\u{c}' {
        seq!['\\', 'f']
    } else if c == '\r' {
        seq!['\\', 'r']
    } else if ' ' > c {
        seq!['\\', 'u', '0', '0', digit(c as nat / 16), digit(c as nat % 16)]
    } else {
        seq![c]
    }
}

/// The characters of `s`, each as it stands inside a JSON string.
pub open spec fn json_characters(s: Seq<char>) -> Seq<char>
    decreases s.len(),
{
    if s.len() == 0 {
        Seq::empty()
    } else {
        json_characters(s.drop_last()) + json_escaped(s.last())
    }
}

/// The text of `s` as a JSON string.
pub open spec fn json_text(s: Seq<char>) -> Seq<char> {
    seq!['"'] + json_characters(s) + seq!['"']
}

/// `serde_json::to_string` of a `str`: the JSON string in quotes, with the escapes
/// of [`json_escaped`] and every other character as it is. Writing a `str` does not
/// fail.
#[verifier::external_body]
pub(crate) fn to_json_text(s: &str) -> (r: String)
    ensures
        r@ == json_text(s@),
{
    serde_json::to_string(s).expect("a str is always a JSON string")
}

/// A JSON request to a backend.
#[derive(Debug, PartialEq, Eq)]
pub struct JsonPost {
    /// Where the request goes.
    pub url: String,
    /// The `Authorization` header, if any.
    pub authorization: Option<String>,
    /// The request body.
    pub body: String,
}

/// The contents of a [`JsonPost`].
pub struct JsonPostView {
    pub url: Seq<char>,
    pub authorization: Option<Seq<char>>,
    pub body: Seq<char>,
}

impl View for JsonPost {
    type V = JsonPostView;

    open spec fn view(&self) -> JsonPostView {
        JsonPostView {
            url: self.url@,
            authorization: view_of(self.authorization),
            body: self.body@,
        }
    }
}

/// A backend: its tag, and how a prompt is put to it. Sending the request, and
/// the answer's envelope, are transport concerns.
pub trait LlmClient {
    /// The tag of the backend.
    open spec fn tag_spec(&self) -> Seq<char> {
        arbitrary()
    }

    /// The request that asks `model` for strict JSON on `prompt`.
    open spec fn request_spec(&self, model: Seq<char>, prompt: Seq<char>) -> JsonPostView {
        arbitrary()
    }

    /// A stable identifier of the backend, so that one model on two providers
    /// cannot share a cache entry.
    fn provider_tag(&self) -> (r: &'static str)
        ensures
            r@ == self.tag_spec(),
    ;

    /// The request that asks `model` for strict JSON on `prompt`.
    fn request(&self, model: &str, prompt: &str) -> (r: JsonPost)
        ensures
            r@ == self.request_spec(model@, prompt@),
    ;
}

/// The version tag of a projection: provider, model and prompt version, joined by
/// colons.
pub open spec fn tag_text(
    provider: Seq<char>,
    model: Seq<char>,
    prompt_version: Seq<char>,
) -> Seq<char> {
    provider + ":"@ + model + ":"@ + prompt_version
}

/// The prompt for a message body.
pub open spec fn prompt_text(body: Seq<char>) -> Seq<char> {
    PROMPT_TEMPLATE@ + body
}

/// The fingerprint of the prompt template and the parser version.
pub open spec fn fingerprint_text() -> Seq<char> {
    digest(seq![prompt_text(Seq::empty()) + "\n"@ + "1"@])
}

/// The version tag: a change of provider, model or prompt gives another.
pub fn version_tag(provider: &str, model: &str, prompt_version: &str) -> (r: String)
    ensures
        r@ == tag_text(provider@, model@, prompt_version@),
{
    let mut out = cat3(provider, ":", model);
    out.append(":");
    out.append(prompt_version);
    out
}

/// A stable fingerprint of the prompt template and the parser version, taken with
/// an empty body so that it depends on no message.
pub fn prompt_fingerprint() -> (r: String)
    ensures
        r@ == fingerprint_text(),
{
    let empty = String::new();
    fingerprint(cat3(projection_prompt(empty.as_str()).as_str(), "\n", PARSER_VERSION).as_str())
}

/// A short hash of a text.
pub fn fingerprint(text: &str) -> (r: String)
    ensures
        r@ == digest(seq![text@]),
{
    let mut d = Digest::new();
    d.text(text);
    assert(d@ =~= seq![text@]);
    d.finish()
}

/// The prompt that asks to classify a message.
pub fn projection_prompt(body: &str) -> (r: String)
    ensures
        r@ == prompt_text(body@),
{
    cat(PROMPT_TEMPLATE, body)
}

/// A model's answer in the shape it is asked for.
#[derive(Debug, PartialEq)]
pub struct ProjectionAnswer {
    pub intent: Intent,
    pub topics: Vec<String>,
    pub entities: Vec<String>,
    pub confidence: Double,
}

/// The projection that an answer gives for a message. The id is the message's,
/// never the model's, and the confidence is clamped.
pub open spec fn answer_projection(answer: ProjectionAnswer, id: Seq<char>) -> ProjectionView {
    ProjectionView {
        message_id: id,
        intent: answer.intent,
        topics: views(answer.topics@),
        entities: views(answer.entities@),
        confidence: answer.confidence.clamp_unit_spec(),
    }
}

impl ProjectionAnswer {
    /// The projection that the answer gives for a message.
    pub fn into_projection(self, id: &MessageId) -> (r: Projection)
        ensures
            r@ == answer_projection(self, id@),
    {
        let mut topics: Vec<Topic> = Vec::new();
        let mut i: usize = 0;
        while i < self.topics.len()
            invariant
                i <= self.topics@.len(),
                topics@.len() == i,
                forall|j: int| 0 <= j < i ==> (#[trigger] topics@[j])@ == self.topics@[j]@,
            decreases self.topics@.len() - i,
        {
            topics.push(Topic(self.topics[i].clone()));
            i = i + 1;
        }
        let mut entities: Vec<Entity> = Vec::new();
        let mut k: usize = 0;
        while k < self.entities.len()
            invariant
                k <= self.entities@.len(),
                entities@.len() == k,
                forall|j: int| 0 <= j < k ==> (#[trigger] entities@[j])@ == self.entities@[j]@,
            decreases self.entities@.len() - k,
        {
            entities.push(Entity(self.entities[k].clone()));
            k = k + 1;
        }
        assert(views(topics@) =~= views(self.topics@));
        assert(views(entities@) =~= views(self.entities@));
        Projection {
            message_id: id.clone(),
            intent: self.intent,
            topics,
            entities,
            confidence: Confidence::new(self.confidence),
        }
    }
}

/// A projector over any backend: it puts the projection prompt to the client's
/// model and reads the answer.
pub struct LlmProjector<C> {
    client: C,
    model: String,
    prompt_version: String,
}

/// The kind of the language-model projector.
pub const LLM_KIND: &'static str = "mirrorlane.projection.llm";

impl<C: LlmClient> LlmProjector<C> {
    /// The client.
    pub closed spec fn client_spec(&self) -> C {
        self.client
    }

    /// The model.
    pub closed spec fn model_spec(&self) -> Seq<char> {
        self.model@
    }

    /// The prompt version.
    pub closed spec fn prompt_version_spec(&self) -> Seq<char> {
        self.prompt_version@
    }

    /// Builds a projector over `client`.
    pub fn new(client: C, model: &str, prompt_version: &str) -> (r: Self)
        ensures
            r.client_spec() == client,
            r.model_spec() == model@,
            r.prompt_version_spec() == prompt_version@,
    {
        LlmProjector {
            client,
            model: model.to_string(),
            prompt_version: prompt_version.to_string(),
        }
    }

    /// The version this projector must be cached under: the version tag and the
    /// prompt fingerprint, so that editing the prompt drops prior entries.
    pub open spec fn cache_version_spec(&self) -> Seq<char> {
        tag_text(self.client_spec().tag_spec(), self.model_spec(), self.prompt_version_spec())
            + ":"@ + fingerprint_text()
    }

    /// The version this projector must be cached under.
    pub fn cache_version(&self) -> (r: String)
        ensures
            r@ == self.cache_version_spec(),
    {
        let mut out = version_tag(
            self.client.provider_tag(),
            self.model.as_str(),
            self.prompt_version.as_str(),
        );
        out.append(":");
        out.append(prompt_fingerprint().as_str());
        out
    }

    /// The step version of the projector: its cache version.
    pub fn version(&self) -> (r: StepVersion)
        ensures
            r@ == self.cache_version_spec(),
    {
        StepVersion(self.cache_version())
    }

    /// What to ask the backend about a message.
    pub fn request(&self, message: &MessageEnvelope) -> (r: JsonPost)
        ensures
            r@ == self.client_spec().request_spec(self.model_spec(), prompt_text(message@.body)),
    {
        let prompt = projection_prompt(message.body.as_str());
        self.client.request(self.model.as_str(), prompt.as_str())
    }

    /// The projection of a message whose answer came back.
    pub fn accept(&self, message: &MessageEnvelope, answer: ProjectionAnswer) -> (r: Projection)
        ensures
            r@ == answer_projection(answer, message@.id),
    {
        answer.into_projection(&message.id)
    }
}

} // verus!
