//! The scope model: what a session should load and ignore, and why.

use super::message::ConversationId;
use super::message::MessageId;
use super::projection::Confidence;
use super::seqs::views;
use crate::double::Double;
use vstd::prelude::*;

verus! {

/// A repository area a session may load or ignore.
#[derive(Debug, PartialEq, Eq, Hash, PartialOrd, Ord)]
pub struct Component(pub String);

impl View for Component {
    type V = Seq<char>;

    open spec fn view(&self) -> Seq<char> {
        self.0@
    }
}

impl Clone for Component {
    fn clone(&self) -> (r: Self)
        ensures
            r@ == self@,
    {
        Component(self.0.clone())
    }
}

/// What a session should load and ignore, with a readable reason.
#[derive(Debug, PartialEq)]
pub struct Scope {
    pub conversation: ConversationId,
    pub load: Vec<Component>,
    pub ignore: Vec<Component>,
    pub reason: String,
    pub confidence: Confidence,
}

/// The contents of a [`Scope`].
pub struct ScopeView {
    pub conversation: Seq<char>,
    pub load: Seq<Seq<char>>,
    pub ignore: Seq<Seq<char>>,
    pub reason: Seq<char>,
    pub confidence: Double,
}

impl View for Scope {
    type V = ScopeView;

    open spec fn view(&self) -> ScopeView {
        ScopeView {
            conversation: self.conversation@,
            load: views(self.load@),
            ignore: views(self.ignore@),
            reason: self.reason@,
            confidence: self.confidence@,
        }
    }
}

impl Clone for Scope {
    fn clone(&self) -> (r: Self)
        ensures
            r@ == self@,
    {
        let r = Scope {
            conversation: self.conversation.clone(),
            load: self.load.clone(),
            ignore: self.ignore.clone(),
            reason: self.reason.clone(),
            confidence: self.confidence,
        };
        assert(views(r.load@) =~= views(self.load@));
        assert(views(r.ignore@) =~= views(self.ignore@));
        r
    }
}

/// A request to build the scope of a session from its messages.
#[derive(Debug, PartialEq, Eq)]
pub struct ScopeRequest {
    pub conversation: ConversationId,
    pub messages: Vec<MessageId>,
}

/// The contents of a [`ScopeRequest`].
pub struct ScopeRequestView {
    pub conversation: Seq<char>,
    pub messages: Seq<Seq<char>>,
}

impl View for ScopeRequest {
    type V = ScopeRequestView;

    open spec fn view(&self) -> ScopeRequestView {
        ScopeRequestView {
            conversation: self.conversation@,
            messages: views(self.messages@),
        }
    }
}

impl Clone for ScopeRequest {
    fn clone(&self) -> (r: Self)
        ensures
            r@ == self@,
    {
        let r = ScopeRequest {
            conversation: self.conversation.clone(),
            messages: self.messages.clone(),
        };
        assert(views(r.messages@) =~= views(self.messages@));
        r
    }
}

} // verus!
