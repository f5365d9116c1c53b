//! A deterministic warm-up builder.
//!
//! It groups a session's projections by intent, takes the focus from the scope
//! and renders a fixed summary; it does not read message bodies.

use super::scope::join_components;
use crate::model::message::ConversationId;
use crate::model::message::MessageId;
use crate::model::projection::Intent;
use crate::model::projection::Projection;
use crate::model::projection::ProjectionView;
use crate::model::projector::WarmupBuilder;
use crate::model::scope::Component;
use crate::model::scope::Scope;
use crate::model::scope::ScopeView;
use crate::model::seqs::views;
use crate::model::warmup::WarmupDocument;
use crate::model::warmup::WarmupDocumentView;
use crate::text::cat;
use crate::text::decimal;
use crate::text::joined;
use crate::text::push_decimal;
use vstd::prelude::*;

verus! {

/// The messages with a given intent, in order.
pub open spec fn with_intent(projections: Seq<ProjectionView>, intent: Intent) -> Seq<Seq<char>>
    decreases projections.len(),
{
    if projections.len() == 0 {
        Seq::empty()
    } else {
        let before = with_intent(projections.drop_last(), intent);
        if projections.last().intent == intent {
            before.push(projections.last().message_id)
        } else {
            before
        }
    }
}

/// The line that names the focus.
pub open spec fn focus_line(focus: Seq<Seq<char>>) -> Seq<char> {
    if focus.len() == 0 {
        "Focus: (no scope yet)"@
    } else {
        "Focus: "@ + joined(focus, ", "@)
    }
}

/// The line that gives the scope's reason, where there is a scope.
pub open spec fn why_line(scope: Option<ScopeView>) -> Seq<char> {
    match scope {
        Some(s) => "\nWhy: "@ + s.reason,
        None => Seq::empty(),
    }
}

/// The summary text.
pub open spec fn summary_text(
    conversation: Seq<char>,
    scope: Option<ScopeView>,
    focus: Seq<Seq<char>>,
    decisions: nat,
    open_questions: nat,
    tasks: nat,
) -> Seq<char> {
    "You are joining "@ + conversation + ".\n"@ + focus_line(focus) + why_line(scope)
        + "\nRecent decisions: "@ + decimal(decisions) + "\nOpen questions: "@ + decimal(
        open_questions,
    ) + "\nTasks: "@ + decimal(tasks)
}

/// The warm-up of a session: its messages grouped by intent under the scope's
/// focus.
pub open spec fn grouped_warmup(
    conversation: Seq<char>,
    scope: Option<ScopeView>,
    projections: Seq<ProjectionView>,
) -> WarmupDocumentView {
    let focus = match scope {
        Some(s) => s.load,
        None => Seq::empty(),
    };
    let decisions = with_intent(projections, Intent::Decision);
    let open_questions = with_intent(projections, Intent::Question);
    let tasks = with_intent(projections, Intent::Task);
    WarmupDocumentView {
        conversation,
        focus,
        decisions,
        open_questions,
        tasks,
        summary: summary_text(
            conversation,
            scope,
            focus,
            decisions.len(),
            open_questions.len(),
            tasks.len(),
        ),
    }
}

/// The view of a borrowed optional scope.
pub open spec fn scope_view(scope: Option<&Scope>) -> Option<ScopeView> {
    match scope {
        Some(s) => Some(s@),
        None => None,
    }
}

/// Renders the summary.
fn render(
    conversation: &ConversationId,
    scope: Option<&Scope>,
    focus: &Vec<Component>,
    decisions: usize,
    open_questions: usize,
    tasks: usize,
) -> (r: String)
    ensures
        r@ == summary_text(
            conversation@,
            scope_view(scope),
            views(focus@),
            decisions as nat,
            open_questions as nat,
            tasks as nat,
        ),
{
    let mut out = cat("You are joining ", conversation.0.as_str());
    out.append(".\n");
    if focus.len() == 0 {
        out.append("Focus: (no scope yet)");
    } else {
        out.append(cat("Focus: ", join_components(focus, ", ").as_str()).as_str());
    }
    if let Some(s) = scope {
        out.append(cat("\nWhy: ", s.reason.as_str()).as_str());
    } else {
        assert(out@ + Seq::<char>::empty() =~= out@);
    }
    out.append("\nRecent decisions: ");
    push_decimal(&mut out, decisions as u64);
    out.append("\nOpen questions: ");
    push_decimal(&mut out, open_questions as u64);
    out.append("\nTasks: ");
    push_decimal(&mut out, tasks as u64);
    out
}

/// A deterministic mock [`WarmupBuilder`].
#[derive(Clone, Copy, Debug)]
pub struct MockWarmupBuilder;

impl MockWarmupBuilder {
    /// Creates a mock warm-up builder.
    pub fn new() -> (r: Self) {
        MockWarmupBuilder
    }
}

impl Default for MockWarmupBuilder {
    fn default() -> (r: Self) {
        MockWarmupBuilder
    }
}

impl WarmupBuilder for MockWarmupBuilder {
    open spec fn warmup_spec(
        &self,
        conversation: Seq<char>,
        scope: Option<ScopeView>,
        projections: Seq<ProjectionView>,
    ) -> WarmupDocumentView {
        grouped_warmup(conversation, scope, projections)
    }

    fn build(
        &self,
        conversation: &ConversationId,
        scope: Option<&Scope>,
        projections: &[Projection],
    ) -> (r: WarmupDocument) {
        let ghost all = views(projections@);
        let mut decisions: Vec<MessageId> = Vec::new();
        let mut open_questions: Vec<MessageId> = Vec::new();
        let mut tasks: Vec<MessageId> = Vec::new();
        let mut i: usize = 0;
        proof {
            assert(views(decisions@) =~= with_intent(all.take(0), Intent::Decision));
            assert(views(open_questions@) =~= with_intent(all.take(0), Intent::Question));
            assert(views(tasks@) =~= with_intent(all.take(0), Intent::Task));
        }
        while i < projections.len()
            invariant
                i <= projections@.len(),
                all == views(projections@),
                views(decisions@) == with_intent(all.take(i as int), Intent::Decision),
                views(open_questions@) == with_intent(all.take(i as int), Intent::Question),
                views(tasks@) == with_intent(all.take(i as int), Intent::Task),
            decreases projections@.len() - i,
        {
            let projection = &projections[i];
            let ghost d = views(decisions@);
            let ghost q = views(open_questions@);
            let ghost t = views(tasks@);
            let id = projection.message_id.clone();
            proof {
                assert(all.take(i + 1).drop_last() =~= all.take(i as int));
                assert(all.take(i + 1).last() == projection@);
            }
            match projection.intent {
                Intent::Decision => {
                    decisions.push(id);
                    assert(views(decisions@) =~= d.push(projection@.message_id));
                },
                Intent::Question => {
                    open_questions.push(id);
                    assert(views(open_questions@) =~= q.push(projection@.message_id));
                },
                Intent::Task => {
                    tasks.push(id);
                    assert(views(tasks@) =~= t.push(projection@.message_id));
                },
                _ => {},
            }
            i = i + 1;
        }
        assert(all.take(i as int) =~= all);
        let focus: Vec<Component> = match scope {
            Some(s) => {
                let load = s.load.clone();
                assert(views(load@) =~= views(s.load@));
                load
            },
            None => Vec::new(),
        };
        proof {
            if scope is None {
                assert(views(focus@) =~= Seq::<Seq<char>>::empty());
            }
        }
        let summary = render(
            conversation,
            scope,
            &focus,
            decisions.len(),
            open_questions.len(),
            tasks.len(),
        );
        WarmupDocument {
            conversation: conversation.clone(),
            focus,
            decisions,
            open_questions,
            tasks,
            summary,
        }
    }
}

} // verus!
