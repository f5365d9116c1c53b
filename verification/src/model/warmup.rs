//! The warm-up model: what a session needs to start, and to resume.

use super::message::ConversationId;
use super::message::MessageId;
use super::scope::Component;
use super::seqs::views;
use vstd::prelude::*;

verus! {

/// A session warm-up: the focus, the decisions, open questions and tasks, and a rendered
/// summary.
#[derive(Debug, PartialEq, Eq)]
pub struct WarmupDocument {
    pub conversation: ConversationId,
    pub focus: Vec<Component>,
    pub decisions: Vec<MessageId>,
    pub open_questions: Vec<MessageId>,
    pub tasks: Vec<MessageId>,
    pub summary: String,
}

/// The contents of a [`WarmupDocument`].
pub struct WarmupDocumentView {
    pub conversation: Seq<char>,
    pub focus: Seq<Seq<char>>,
    pub decisions: Seq<Seq<char>>,
    pub open_questions: Seq<Seq<char>>,
    pub tasks: Seq<Seq<char>>,
    pub summary: Seq<char>,
}

impl View for WarmupDocument {
    type V = WarmupDocumentView;

    open spec fn view(&self) -> WarmupDocumentView {
        WarmupDocumentView {
            conversation: self.conversation@,
            focus: views(self.focus@),
            decisions: views(self.decisions@),
            open_questions: views(self.open_questions@),
            tasks: views(self.tasks@),
            summary: self.summary@,
        }
    }
}

impl Clone for WarmupDocument {
    fn clone(&self) -> (r: Self)
        ensures
            r@ == self@,
    {
        let r = WarmupDocument {
            conversation: self.conversation.clone(),
            focus: self.focus.clone(),
            decisions: self.decisions.clone(),
            open_questions: self.open_questions.clone(),
            tasks: self.tasks.clone(),
            summary: self.summary.clone(),
        };
        assert(views(r.focus@) =~= views(self.focus@));
        assert(views(r.decisions@) =~= views(self.decisions@));
        assert(views(r.open_questions@) =~= views(self.open_questions@));
        assert(views(r.tasks@) =~= views(self.tasks@));
        r
    }
}

/// A request to build the warm-up of a session from its messages.
#[derive(Debug, PartialEq, Eq)]
pub struct WarmupRequest {
    pub conversation: ConversationId,
    pub messages: Vec<MessageId>,
}

/// The contents of a [`WarmupRequest`].
pub struct WarmupRequestView {
    pub conversation: Seq<char>,
    pub messages: Seq<Seq<char>>,
}

impl View for WarmupRequest {
    type V = WarmupRequestView;

    open spec fn view(&self) -> WarmupRequestView {
        WarmupRequestView {
            conversation: self.conversation@,
            messages: views(self.messages@),
        }
    }
}

impl Clone for WarmupRequest {
    fn clone(&self) -> (r: Self)
        ensures
            r@ == self@,
    {
        let r = WarmupRequest {
            conversation: self.conversation.clone(),
            messages: self.messages.clone(),
        };
        assert(views(r.messages@) =~= views(self.messages@));
        r
    }
}

} // verus!
