//! A deterministic, keyword-based projector.
//!
//! It validates the pipeline and the model rather than understanding language:
//! given the same message it always returns the same projection.

use crate::double::lemma_scaled_natural;
use crate::double::Double;
use crate::model::message::MessageEnvelope;
use crate::model::message::MessageId;
use crate::model::projection::Confidence;
use crate::model::projection::Entity;
use crate::model::projection::Intent;
use crate::model::projection::Projection;
use crate::model::projection::ProjectionView;
use crate::model::projection::Topic;
use crate::model::seqs::views;
use crate::runtime::step::Step;
use crate::runtime::step::StepVersion;
use crate::text::contains;
use crate::text::lowercase;
use crate::text::occurs;
use crate::text::to_lower;
use vstd::prelude::*;

verus! {

/// The pattern of `0.5`, the confidence without any recognized signal.
const BASE_BITS: u64 = 0x3FE0_0000_0000_0000;

/// The pattern of `0.1`, what each recognized keyword adds.
const STEP_BITS: u64 = 0x3FB9_9999_9999_999A;

/// The known topics, matched as substrings of the lower-case body.
pub open spec fn topic_keywords() -> Seq<Seq<char>> {
    seq![
        "rust"@,
        "backend"@,
        "sdk"@,
        "infra"@,
        "ai"@,
        "auth"@,
        "oauth"@,
        "ci"@,
    ]
}

/// The known entities, matched as substrings of the lower-case body.
pub open spec fn entity_keywords() -> Seq<Seq<char>> {
    seq!["postgres"@, "sqlite"@, "refresh-token"@, "authservice"@, "opentelemetry"@]
}

/// The keywords that occur in a text, in their order.
pub open spec fn found(keywords: Seq<Seq<char>>, body: Seq<char>) -> Seq<Seq<char>>
    decreases keywords.len(),
{
    if keywords.len() == 0 {
        Seq::empty()
    } else {
        let before = found(keywords.drop_last(), body);
        if occurs(body, keywords.last()) {
            before.push(keywords.last())
        } else {
            before
        }
    }
}

/// The intent of a lower-case body.
pub open spec fn intent_of(body: Seq<char>) -> Intent {
    if occurs(body, "?"@) {
        Intent::Question
    } else if occurs(body, "propose"@) || occurs(body, "proposal"@) || occurs(body, "suggest"@) {
        Intent::Proposal
    } else if occurs(body, "decided"@) || occurs(body, "let's"@) || occurs(body, "we will"@) {
        Intent::Decision
    } else if occurs(body, "bug"@) || occurs(body, "error"@) || occurs(body, "broken"@) {
        Intent::Issue
    } else if occurs(body, "todo"@) || occurs(body, "task"@) || occurs(body, "need to"@) {
        Intent::Task
    } else {
        Intent::Social
    }
}

/// The confidence of a projection with `signal` recognized keywords: one half,
/// and a tenth for each.
pub open spec fn confidence_of(signal: nat) -> Double {
    (Double { bits: 0x3FE0_0000_0000_0000 }).sum_spec(
        (Double { bits: 0x3FB9_9999_9999_999A }).scaled_spec(signal),
    ).clamp_unit_spec()
}

/// The projection of a message whose body is `body` in lower case.
pub open spec fn keyword_projection(message_id: Seq<char>, body: Seq<char>) -> ProjectionView {
    let topics = found(topic_keywords(), body);
    let entities = found(entity_keywords(), body);
    ProjectionView {
        message_id,
        intent: intent_of(body),
        topics,
        entities,
        confidence: confidence_of(topics.len() + entities.len()),
    }
}

/// The known topics.
fn topic_list() -> (r: Vec<&'static str>)
    ensures
        r@.map_values(|k: &str| k@) == topic_keywords(),
{
    let r: Vec<&'static str> = vec!["rust", "backend", "sdk", "infra", "ai", "auth", "oauth", "ci"];
    assert(r@.map_values(|k: &str| k@) =~= topic_keywords());
    r
}

/// The known entities.
fn entity_list() -> (r: Vec<&'static str>)
    ensures
        r@.map_values(|k: &str| k@) == entity_keywords(),
{
    let r: Vec<&'static str> = vec![
        "postgres",
        "sqlite",
        "refresh-token",
        "authservice",
        "opentelemetry",
    ];
    assert(r@.map_values(|k: &str| k@) =~= entity_keywords());
    r
}

/// Picks the keywords that occur in the body.
fn pick(keywords: Vec<&'static str>, body: &str) -> (r: Vec<String>)
    ensures
        views(r@) == found(keywords@.map_values(|k: &str| k@), body@),
        r@.len() <= keywords@.len(),
{
    let ghost all = keywords@.map_values(|k: &str| k@);
    let mut out: Vec<String> = Vec::new();
    let mut i: usize = 0;
    assert(views(out@) =~= found(all.take(0), body@));
    while i < keywords.len()
        invariant
            i <= keywords@.len(),
            out@.len() <= i,
            all == keywords@.map_values(|k: &str| k@),
            views(out@) == found(all.take(i as int), body@),
        decreases keywords@.len() - i,
    {
        let keyword = keywords[i];
        proof {
            assert(all.take(i + 1).drop_last() =~= all.take(i as int));
            assert(all.take(i + 1).last() == keyword@);
        }
        if contains(body, keyword) {
            let ghost before = out@;
            out.push(keyword.to_string());
            assert(views(out@) =~= views(before).push(keyword@));
        }
        i = i + 1;
    }
    assert(all.take(i as int) =~= all);
    out
}

/// The intent of a lower-case body: the first group of keywords that matches.
pub fn detect_intent(body: &str) -> (r: Intent)
    ensures
        r == intent_of(body@),
{
    if contains(body, "?") {
        Intent::Question
    } else if contains(body, "propose") || contains(body, "proposal") || contains(body, "suggest") {
        Intent::Proposal
    } else if contains(body, "decided") || contains(body, "let's") || contains(body, "we will") {
        Intent::Decision
    } else if contains(body, "bug") || contains(body, "error") || contains(body, "broken") {
        Intent::Issue
    } else if contains(body, "todo") || contains(body, "task") || contains(body, "need to") {
        Intent::Task
    } else {
        Intent::Social
    }
}

/// A deterministic mock projector.
#[derive(Clone, Copy, Debug)]
pub struct MockProjector;

impl MockProjector {
    /// Creates a mock projector.
    pub fn new() -> (r: Self) {
        MockProjector
    }

    /// Projects a message from its body in lower case.
    pub fn project_lowered(message_id: &MessageId, body: &str) -> (r: Projection)
        ensures
            r@ == keyword_projection(message_id@, body@),
    {
        let topic_names = pick(topic_list(), body);
        let entity_names = pick(entity_list(), body);
        let mut topics: Vec<Topic> = Vec::new();
        let mut i: usize = 0;
        while i < topic_names.len()
            invariant
                i <= topic_names@.len(),
                topics@.len() == i,
                forall|j: int| 0 <= j < i ==> (#[trigger] topics@[j])@ == topic_names@[j]@,
            decreases topic_names@.len() - i,
        {
            topics.push(Topic(topic_names[i].clone()));
            i = i + 1;
        }
        let mut entities: Vec<Entity> = Vec::new();
        let mut k: usize = 0;
        while k < entity_names.len()
            invariant
                k <= entity_names@.len(),
                entities@.len() == k,
                forall|j: int| 0 <= j < k ==> (#[trigger] entities@[j])@ == entity_names@[j]@,
            decreases entity_names@.len() - k,
        {
            entities.push(Entity(entity_names[k].clone()));
            k = k + 1;
        }
        assert(views(topics@) =~= views(topic_names@));
        assert(views(entities@) =~= views(entity_names@));
        let signal: u64 = (topics.len() + entities.len()) as u64;
        let step = Double::from_bits(STEP_BITS);
        proof {
            lemma_scaled_natural(step, signal);
        }
        let confidence = Confidence::new(Double::from_bits(BASE_BITS).plus(step.times(signal)));
        Projection {
            message_id: message_id.clone(),
            intent: detect_intent(body),
            topics,
            entities,
            confidence,
        }
    }
}

impl Default for MockProjector {
    fn default() -> (r: Self) {
        MockProjector
    }
}

impl Step for MockProjector {
    type In = MessageEnvelope;

    type Out = Projection;

    type Memory = ();

    open spec fn kind_spec(&self) -> Seq<char> {
        "mirrorlane.projection.mock"@
    }

    open spec fn version_spec(&self) -> Seq<char> {
        "mock:v1"@
    }

    open spec fn memory(&self) -> () {
        ()
    }

    open spec fn runs(&self, input: &MessageEnvelope, after: (), out: &Projection) -> bool {
        out@ == keyword_projection(input.id@, lowercase(input.body@))
    }

    fn kind(&self) -> (r: &'static str) {
        "mirrorlane.projection.mock"
    }

    fn version(&self) -> (r: StepVersion) {
        StepVersion::new("mock:v1")
    }

    fn run(&mut self, input: &MessageEnvelope) -> (out: Projection) {
        let body = to_lower(input.body.as_str());
        MockProjector::project_lowered(&input.id, body.as_str())
    }
}

} // verus!
