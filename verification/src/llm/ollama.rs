//! The Ollama backend.

use super::json_text;
use super::to_json_text;
use super::JsonPost;
use super::JsonPostView;
use super::LlmClient;
use crate::text::cat;
use vstd::prelude::*;

verus! {

/// The default local endpoint.
pub const DEFAULT_BASE_URL: &'static str = "http://localhost:11434";

/// The default model.
pub const DEFAULT_MODEL: &'static str = "qwen2.5:3b-instruct";

/// A client of a local Ollama server.
pub struct OllamaClient {
    base_url: String,
}

impl View for OllamaClient {
    type V = Seq<char>;

    closed spec fn view(&self) -> Seq<char> {
        self.base_url@
    }
}

impl OllamaClient {
    /// Builds a client against `base_url`.
    pub fn new(base_url: &str) -> (r: Self)
        ensures
            r@ == base_url@,
    {
        OllamaClient { base_url: base_url.to_string() }
    }

    /// A client against the default local endpoint.
    pub fn with_defaults() -> (r: Self)
        ensures
            r@ == "http://localhost:11434"@,
    {
        OllamaClient::new(DEFAULT_BASE_URL)
    }
}

/// The body of a generate request, in JSON mode and not streamed.
pub open spec fn generate_body(model: Seq<char>, prompt: Seq<char>) -> Seq<char> {
    "{\"format\":\"json\",\"model\":"@ + json_text(model) + ",\"prompt\":"@ + json_text(prompt)
        + ",\"stream\":false}"@
}

impl LlmClient for OllamaClient {
    open spec fn tag_spec(&self) -> Seq<char> {
        "ollama"@
    }

    open spec fn request_spec(&self, model: Seq<char>, prompt: Seq<char>) -> JsonPostView {
        JsonPostView {
            url: self@ + "/api/generate"@,
            authorization: None,
            body: generate_body(model, prompt),
        }
    }

    fn provider_tag(&self) -> (r: &'static str) {
        "ollama"
    }

    fn request(&self, model: &str, prompt: &str) -> (r: JsonPost) {
        let mut body = "{\"format\":\"json\",\"model\":".to_string();
        body.append(to_json_text(model).as_str());
        body.append(",\"prompt\":");
        body.append(to_json_text(prompt).as_str());
        body.append(",\"stream\":false}");
        JsonPost { url: cat(self.base_url.as_str(), "/api/generate"), authorization: None, body }
    }
}

} // verus!
