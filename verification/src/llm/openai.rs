//! The backend of OpenAI-compatible chat-completions endpoints.

use super::json_text;
use super::to_json_text;
use super::JsonPost;
use super::JsonPostView;
use super::LlmClient;
use crate::model::seqs::view_of;
use crate::text::cat;
use vstd::prelude::*;

verus! {

/// The default base URL, the path up to and with `/v1`.
pub const DEFAULT_BASE_URL: &'static str = "https://api.openai.com/v1";

/// The default model.
pub const DEFAULT_MODEL: &'static str = "gpt-4o-mini";

/// A client of an OpenAI-compatible endpoint.
pub struct OpenAiClient {
    base_url: String,
    api_key: Option<String>,
}

/// The contents of an [`OpenAiClient`].
pub struct OpenAiClientView {
    pub base_url: Seq<char>,
    pub api_key: Option<Seq<char>>,
}

impl View for OpenAiClient {
    type V = OpenAiClientView;

    closed spec fn view(&self) -> OpenAiClientView {
        OpenAiClientView { base_url: self.base_url@, api_key: view_of(self.api_key) }
    }
}

impl OpenAiClient {
    /// Builds a client against `base_url` with an optional key, which goes out as
    /// a bearer token.
    pub fn new(base_url: &str, api_key: Option<String>) -> (r: Self)
        ensures
            r@ == (OpenAiClientView { base_url: base_url@, api_key: view_of(api_key) }),
    {
        OpenAiClient { base_url: base_url.to_string(), api_key }
    }
}

/// The body of a chat request, in JSON mode.
pub open spec fn chat_body(model: Seq<char>, prompt: Seq<char>) -> Seq<char> {
    "{\"messages\":[{\"content\":"@ + json_text(prompt) + ",\"role\":\"user\"}],\"model\":"@
        + json_text(model) + ",\"response_format\":{\"type\":\"json_object\"}}"@
}

/// The content that the choices of an answer give: that of the first.
pub fn first_content(contents: Vec<String>) -> (r: Option<String>)
    ensures
        match r {
            Some(content) => contents@.len() > 0 && content@ == contents@[0]@,
            None => contents@.len() == 0,
        },
{
    if contents.len() > 0 {
        Some(contents[0].clone())
    } else {
        None
    }
}

impl LlmClient for OpenAiClient {
    open spec fn tag_spec(&self) -> Seq<char> {
        "openai"@
    }

    open spec fn request_spec(&self, model: Seq<char>, prompt: Seq<char>) -> JsonPostView {
        JsonPostView {
            url: self@.base_url + "/chat/completions"@,
            authorization: match self@.api_key {
                Some(key) => Some("Bearer "@ + key),
                None => None,
            },
            body: chat_body(model, prompt),
        }
    }

    fn provider_tag(&self) -> (r: &'static str) {
        "openai"
    }

    fn request(&self, model: &str, prompt: &str) -> (r: JsonPost) {
        let mut body = "{\"messages\":[{\"content\":".to_string();
        body.append(to_json_text(prompt).as_str());
        body.append(",\"role\":\"user\"}],\"model\":");
        body.append(to_json_text(model).as_str());
        body.append(",\"response_format\":{\"type\":\"json_object\"}}");
        let authorization = match &self.api_key {
            Some(key) => Some(cat("Bearer ", key.as_str())),
            None => None,
        };
        JsonPost { url: cat(self.base_url.as_str(), "/chat/completions"), authorization, body }
    }
}

} // verus!
