//! The draft consumer: a routed projection becomes a GitHub draft.
//!
//! Drafting is a function of the projection, and nothing is posted.

use crate::double::two_decimals;
use crate::model::message::MessageId;
use crate::model::projection::Entity;
use crate::model::projection::Intent;
use crate::model::projection::Projection;
use crate::model::projection::ProjectionView;
use crate::model::projection::Topic;
use crate::model::routing::Consumer;
use crate::model::routing::ConsumerError;
use crate::model::routing::RoutingDecision;
use crate::model::routing::RoutingDecisionView;
use crate::model::seqs::lookup;
use crate::model::seqs::view_of;
use crate::model::seqs::views;
use crate::provider::routing::intent_label;
use crate::provider::routing::intent_name;
use crate::text::cat;
use crate::text::joined;
use vstd::hash_map::StringHashMap;
use vstd::prelude::*;

verus! {

/// Which GitHub artifact a [`GitHubDraft`] is.
#[derive(Clone, Copy, Debug, PartialEq, Eq, Structural)]
pub enum DraftKind {
    Issue,
    PullRequest,
}

/// A drafted GitHub artifact.
#[derive(Debug, PartialEq, Eq)]
pub struct GitHubDraft {
    pub kind: DraftKind,
    pub message_id: MessageId,
    pub title: String,
    pub body: String,
}

/// The contents of a [`GitHubDraft`].
pub struct GitHubDraftView {
    pub kind: DraftKind,
    pub message_id: Seq<char>,
    pub title: Seq<char>,
    pub body: Seq<char>,
}

impl View for GitHubDraft {
    type V = GitHubDraftView;

    open spec fn view(&self) -> GitHubDraftView {
        GitHubDraftView {
            kind: self.kind,
            message_id: self.message_id@,
            title: self.title@,
            body: self.body@,
        }
    }
}

impl Clone for GitHubDraft {
    fn clone(&self) -> (r: Self)
        ensures
            r@ == self@,
    {
        let r = GitHubDraft {
            kind: self.kind,
            message_id: self.message_id.clone(),
            title: self.title.clone(),
            body: self.body.clone(),
        };
        r
    }
}

/// A list for a draft's body, or a dash where it shows nothing.
pub open spec fn shown(items: Seq<Seq<char>>) -> Seq<char> {
    let text = joined(items, ", "@);
    if text.len() == 0 {
        "—"@
    } else {
        text
    }
}

/// The draft of a projection.
pub open spec fn projection_draft(projection: ProjectionView) -> GitHubDraftView {
    let primary = if projection.topics.len() > 0 {
        projection.topics[0]
    } else {
        "general"@
    };
    let kind = if projection.intent == Intent::Proposal {
        DraftKind::PullRequest
    } else {
        DraftKind::Issue
    };
    GitHubDraftView {
        kind,
        message_id: projection.message_id,
        title: match kind {
            DraftKind::Issue => "["@ + primary + "] "@ + intent_name(projection.intent),
            DraftKind::PullRequest => "Proposal: "@ + primary,
        },
        body: "Auto-drafted from message "@ + projection.message_id + " (confidence "@
            + two_decimals(projection.confidence) + ").\n\nTopics: "@ + shown(projection.topics)
            + "\nEntities: "@ + shown(projection.entities),
    }
}

/// Joins topics.
fn join_topics(items: &Vec<Topic>) -> (r: String)
    ensures
        r@ == joined(views(items@), ", "@),
{
    let ghost all = views(items@);
    let mut out = String::new();
    let mut i: usize = 0;
    assert(out@ =~= joined(all.take(0), ", "@));
    while i < items.len()
        invariant
            i <= items@.len(),
            all == views(items@),
            out@ == joined(all.take(i as int), ", "@),
        decreases items@.len() - i,
    {
        if i > 0 {
            out.append(", ");
        }
        out.append(items[i].0.as_str());
        proof {
            assert(all.take(i + 1).drop_last() =~= all.take(i as int));
            assert(all.take(i + 1).last() == items@[i as int]@);
            assert(out@ =~= joined(all.take(i + 1), ", "@));
        }
        i = i + 1;
    }
    assert(all.take(i as int) =~= all);
    out
}

/// Joins entities.
fn join_entities(items: &Vec<Entity>) -> (r: String)
    ensures
        r@ == joined(views(items@), ", "@),
{
    let ghost all = views(items@);
    let mut out = String::new();
    let mut i: usize = 0;
    assert(out@ =~= joined(all.take(0), ", "@));
    while i < items.len()
        invariant
            i <= items@.len(),
            all == views(items@),
            out@ == joined(all.take(i as int), ", "@),
        decreases items@.len() - i,
    {
        if i > 0 {
            out.append(", ");
        }
        out.append(items[i].0.as_str());
        proof {
            assert(all.take(i + 1).drop_last() =~= all.take(i as int));
            assert(all.take(i + 1).last() == items@[i as int]@);
            assert(out@ =~= joined(all.take(i + 1), ", "@));
        }
        i = i + 1;
    }
    assert(all.take(i as int) =~= all);
    out
}

/// Appends a list, or a dash where it shows nothing.
fn push_shown(out: &mut String, text: &str)
    ensures
        final(out)@ == old(out)@ + if text@.len() == 0 {
            "—"@
        } else {
            text@
        },
{
    if text.is_empty() {
        out.append("—");
    } else {
        out.append(text);
    }
}

/// Drafts a GitHub artifact from a projection: a pull request for a proposal, an
/// issue for anything else.
pub fn draft_for(projection: &Projection) -> (r: GitHubDraft)
    ensures
        r@ == projection_draft(projection@),
{
    let primary: &str = if projection.topics.len() > 0 {
        projection.topics[0].0.as_str()
    } else {
        "general"
    };
    let kind = match projection.intent {
        Intent::Proposal => DraftKind::PullRequest,
        _ => DraftKind::Issue,
    };
    let title = match kind {
        DraftKind::Issue => {
            let mut text = cat("[", primary);
            text.append("] ");
            text.append(intent_label(projection.intent));
            text
        },
        DraftKind::PullRequest => cat("Proposal: ", primary),
    };
    let mut body = cat("Auto-drafted from message ", projection.message_id.0.as_str());
    body.append(" (confidence ");
    body.append(projection.confidence.get().to_two_decimals().as_str());
    body.append(").\n\nTopics: ");
    push_shown(&mut body, join_topics(&projection.topics).as_str());
    body.append("\nEntities: ");
    push_shown(&mut body, join_entities(&projection.entities).as_str());
    GitHubDraft { kind, message_id: projection.message_id.clone(), title, body }
}

/// A [`Consumer`] that records drafts by message id: one per message, however
/// often it is dispatched.
pub struct GitHubConsumer {
    drafts: StringHashMap<GitHubDraft>,
}

impl View for GitHubConsumer {
    type V = Map<Seq<char>, GitHubDraftView>;

    closed spec fn view(&self) -> Map<Seq<char>, GitHubDraftView> {
        self.drafts@.map_values(|d: GitHubDraft| d@)
    }
}

impl GitHubConsumer {
    /// Creates an empty consumer.
    pub fn new() -> (r: Self)
        ensures
            r@ == Map::<Seq<char>, GitHubDraftView>::empty(),
    {
        let r = GitHubConsumer { drafts: StringHashMap::new() };
        assert(r@ =~= Map::<Seq<char>, GitHubDraftView>::empty());
        r
    }

    /// The number of distinct drafts.
    pub fn len(&self) -> (r: usize)
        ensures
            r == self@.len(),
    {
        assert(self@.dom() =~= self.drafts@.dom());
        self.drafts.len()
    }

    /// Whether nothing has been drafted.
    pub fn is_empty(&self) -> (r: bool)
        ensures
            r == self@.is_empty(),
    {
        assert(self@.dom() =~= self.drafts@.dom());
        self.drafts.is_empty()
    }

    /// The draft recorded for a message, if any.
    pub fn get(&self, message_id: &MessageId) -> (r: Option<GitHubDraft>)
        ensures
            view_of(r) == lookup(self@, message_id@),
    {
        match self.drafts.get(message_id.0.as_str()) {
            Some(draft) => Some(draft.clone()),
            None => None,
        }
    }
}

impl Default for GitHubConsumer {
    fn default() -> (r: Self)
        ensures
            r@ == Map::<Seq<char>, GitHubDraftView>::empty(),
    {
        GitHubConsumer::new()
    }
}

impl Consumer for GitHubConsumer {
    open spec fn consumes(
        &self,
        decision: RoutingDecisionView,
        projection: ProjectionView,
        after: &Self,
        result: Result<(), ConsumerError>,
    ) -> bool {
        &&& result is Ok
        &&& after@ == self@.insert(projection.message_id, projection_draft(projection))
    }

    fn consume(&mut self, decision: &RoutingDecision, projection: &Projection) -> (r: Result<
        (),
        ConsumerError,
    >) {
        let ghost before = self@;
        let draft = draft_for(projection);
        self.drafts.insert(projection.message_id.0.clone(), draft);
        assert(self@ =~= before.insert(projection@.message_id, projection_draft(projection@)));
        Ok(())
    }
}

} // verus!
