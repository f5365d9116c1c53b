//! The message model: a normalized envelope for one unit of communication.

use super::seqs::view_of;
use vstd::prelude::*;

verus! {

/// Stable identifier of a message.
#[derive(Debug, PartialEq, Eq, Hash)]
pub struct MessageId(pub String);

impl View for MessageId {
    type V = Seq<char>;

    open spec fn view(&self) -> Seq<char> {
        self.0@
    }
}

impl Clone for MessageId {
    fn clone(&self) -> (r: Self)
        ensures
            r@ == self@,
    {
        MessageId(self.0.clone())
    }
}

/// Where a message originated.
#[derive(Clone, Copy, Debug, PartialEq, Eq, Structural)]
pub enum Source {
    Discord,
    Slack,
    GitHub,
    Manual,
}

/// Stable identifier of a message author.
#[derive(Debug, PartialEq, Eq, Hash)]
pub struct AuthorId(pub String);

impl View for AuthorId {
    type V = Seq<char>;

    open spec fn view(&self) -> Seq<char> {
        self.0@
    }
}

impl Clone for AuthorId {
    fn clone(&self) -> (r: Self)
        ensures
            r@ == self@,
    {
        AuthorId(self.0.clone())
    }
}

/// The author of a message.
#[derive(Debug, PartialEq, Eq)]
pub struct Author {
    pub id: AuthorId,
    pub display_name: String,
}

/// The contents of a [`Author`].
pub struct AuthorView {
    pub id: Seq<char>,
    pub display_name: Seq<char>,
}

impl View for Author {
    type V = AuthorView;

    open spec fn view(&self) -> AuthorView {
        AuthorView {
            id: self.id@,
            display_name: self.display_name@,
        }
    }
}

impl Clone for Author {
    fn clone(&self) -> (r: Self)
        ensures
            r@ == self@,
    {
        let r = Author {
            id: self.id.clone(),
            display_name: self.display_name.clone(),
        };
        r
    }
}

/// Identifier of a conversation: a channel, a direct message, an issue.
#[derive(Debug, PartialEq, Eq, Hash)]
pub struct ConversationId(pub String);

impl View for ConversationId {
    type V = Seq<char>;

    open spec fn view(&self) -> Seq<char> {
        self.0@
    }
}

impl Clone for ConversationId {
    fn clone(&self) -> (r: Self)
        ensures
            r@ == self@,
    {
        ConversationId(self.0.clone())
    }
}

/// Identifier of a thread within a conversation.
#[derive(Debug, PartialEq, Eq, Hash)]
pub struct ThreadId(pub String);

impl View for ThreadId {
    type V = Seq<char>;

    open spec fn view(&self) -> Seq<char> {
        self.0@
    }
}

impl Clone for ThreadId {
    fn clone(&self) -> (r: Self)
        ensures
            r@ == self@,
    {
        ThreadId(self.0.clone())
    }
}

/// The conversation a message belongs to, with an optional thread.
#[derive(Debug, PartialEq, Eq)]
pub struct Conversation {
    pub id: ConversationId,
    pub thread: Option<ThreadId>,
}

/// The contents of a [`Conversation`].
pub struct ConversationView {
    pub id: Seq<char>,
    pub thread: Option<Seq<char>>,
}

impl View for Conversation {
    type V = ConversationView;

    open spec fn view(&self) -> ConversationView {
        ConversationView {
            id: self.id@,
            thread: view_of(self.thread),
        }
    }
}

impl Clone for Conversation {
    fn clone(&self) -> (r: Self)
        ensures
            r@ == self@,
    {
        let r = Conversation {
            id: self.id.clone(),
            thread: self.thread.clone(),
        };
        r
    }
}

/// A normalized message: the unit of input to the projection pipeline.
#[derive(Debug, PartialEq, Eq)]
pub struct MessageEnvelope {
    pub id: MessageId,
    pub source: Source,
    pub author: Author,
    pub conversation: Conversation,
    pub body: String,
}

/// The contents of a [`MessageEnvelope`].
pub struct MessageEnvelopeView {
    pub id: Seq<char>,
    pub source: Source,
    pub author: AuthorView,
    pub conversation: ConversationView,
    pub body: Seq<char>,
}

impl View for MessageEnvelope {
    type V = MessageEnvelopeView;

    open spec fn view(&self) -> MessageEnvelopeView {
        MessageEnvelopeView {
            id: self.id@,
            source: self.source,
            author: self.author@,
            conversation: self.conversation@,
            body: self.body@,
        }
    }
}

impl Clone for MessageEnvelope {
    fn clone(&self) -> (r: Self)
        ensures
            r@ == self@,
    {
        let r = MessageEnvelope {
            id: self.id.clone(),
            source: self.source,
            author: self.author.clone(),
            conversation: self.conversation.clone(),
            body: self.body.clone(),
        };
        r
    }
}

} // verus!
