//! GitHub items and their deterministic mapping to messages.

use crate::model::message::Author;
use crate::model::message::AuthorId;
use crate::model::message::AuthorView;
use crate::model::message::Conversation;
use crate::model::message::ConversationId;
use crate::model::message::ConversationView;
use crate::model::message::MessageEnvelope;
use crate::model::message::MessageEnvelopeView;
use crate::model::message::MessageId;
use crate::model::message::Source;
use crate::model::seqs::view_of;
use crate::text::decimal;
use crate::text::push_decimal;
use vstd::prelude::*;

verus! {

/// A GitHub repository, by owner and name.
#[derive(Debug, PartialEq, Eq)]
pub struct Repo {
    pub owner: String,
    pub name: String,
}

/// The contents of a [`Repo`].
pub struct RepoView {
    pub owner: Seq<char>,
    pub name: Seq<char>,
}

impl View for Repo {
    type V = RepoView;

    open spec fn view(&self) -> RepoView {
        RepoView {
            owner: self.owner@,
            name: self.name@,
        }
    }
}

impl Clone for Repo {
    fn clone(&self) -> (r: Self)
        ensures
            r@ == self@,
    {
        let r = Repo {
            owner: self.owner.clone(),
            name: self.name.clone(),
        };
        r
    }
}

impl Repo {
    /// Creates a repository from owner and name.
    pub fn new(owner: &str, name: &str) -> (r: Self)
        ensures
            r@ == (RepoView { owner: owner@, name: name@ }),
    {
        Repo { owner: owner.to_string(), name: name.to_string() }
    }
}

/// What a [`GitHubItem`] is.
#[derive(Clone, Copy, Debug, PartialEq, Eq, Structural)]
pub enum GitHubItemKind {
    Issue,
    PullRequest,
    Comment,
}

/// The tag of a kind in derived ids.
pub open spec fn kind_tag(kind: GitHubItemKind) -> Seq<char> {
    match kind {
        GitHubItemKind::Issue => "issue"@,
        GitHubItemKind::PullRequest => "pull-request"@,
        GitHubItemKind::Comment => "comment"@,
    }
}

impl GitHubItemKind {
    /// A stable, url-safe tag used in derived ids.
    pub fn tag(self) -> (r: &'static str)
        ensures
            r@ == kind_tag(self),
    {
        match self {
            GitHubItemKind::Issue => "issue",
            GitHubItemKind::PullRequest => "pull-request",
            GitHubItemKind::Comment => "comment",
        }
    }
}

/// An issue, a pull request or a comment. `number` is that of the issue or pull request
/// it belongs to.
#[derive(Debug, PartialEq, Eq)]
pub struct GitHubItem {
    pub kind: GitHubItemKind,
    pub repo: Repo,
    pub number: u64,
    pub id: String,
    pub author_login: String,
    pub title: Option<String>,
    pub body: String,
}

/// The contents of a [`GitHubItem`].
pub struct GitHubItemView {
    pub kind: GitHubItemKind,
    pub repo: RepoView,
    pub number: u64,
    pub id: Seq<char>,
    pub author_login: Seq<char>,
    pub title: Option<Seq<char>>,
    pub body: Seq<char>,
}

impl View for GitHubItem {
    type V = GitHubItemView;

    open spec fn view(&self) -> GitHubItemView {
        GitHubItemView {
            kind: self.kind,
            repo: self.repo@,
            number: self.number,
            id: self.id@,
            author_login: self.author_login@,
            title: view_of(self.title),
            body: self.body@,
        }
    }
}

impl Clone for GitHubItem {
    fn clone(&self) -> (r: Self)
        ensures
            r@ == self@,
    {
        let r = GitHubItem {
            kind: self.kind,
            repo: self.repo.clone(),
            number: self.number,
            id: self.id.clone(),
            author_login: self.author_login.clone(),
            title: self.title.clone(),
            body: self.body.clone(),
        };
        r
    }
}

/// The text shared by the ids derived from a repository.
pub open spec fn repo_prefix(repo: RepoView) -> Seq<char> {
    "github:"@ + repo.owner + "/"@ + repo.name
}

/// The message id of an item: repository, kind and id.
pub open spec fn item_message_id(item: GitHubItemView) -> Seq<char> {
    repo_prefix(item.repo) + ":"@ + kind_tag(item.kind) + ":"@ + item.id
}

/// The conversation of an item: its issue or pull request.
pub open spec fn item_conversation(item: GitHubItemView) -> Seq<char> {
    repo_prefix(item.repo) + "#"@ + decimal(item.number as nat)
}

/// The body of an item's message: its title and body, or the body alone for a
/// comment or an item without title.
pub open spec fn item_body(item: GitHubItemView) -> Seq<char> {
    match item.title {
        Some(title) if item.kind != GitHubItemKind::Comment => title + "\n\n"@ + item.body,
        _ => item.body,
    }
}

/// The message of an item.
pub open spec fn item_message(item: GitHubItemView) -> MessageEnvelopeView {
    MessageEnvelopeView {
        id: item_message_id(item),
        source: Source::GitHub,
        author: AuthorView { id: item.author_login, display_name: item.author_login },
        conversation: ConversationView { id: item_conversation(item), thread: None },
        body: item_body(item),
    }
}

/// Maps an item to a message. The id is stable, so that ingesting the same item
/// again replaces its message; an issue and its comments share a conversation.
pub fn to_message(item: &GitHubItem) -> (r: MessageEnvelope)
    ensures
        r@ == item_message(item@),
{
    let mut prefix = "github:".to_string();
    prefix.append(item.repo.owner.as_str());
    prefix.append("/");
    prefix.append(item.repo.name.as_str());
    let mut id = prefix.clone();
    id.append(":");
    id.append(item.kind.tag());
    id.append(":");
    id.append(item.id.as_str());
    let mut conversation = prefix;
    conversation.append("#");
    push_decimal(&mut conversation, item.number);
    let body = match &item.title {
        Some(title) if item.kind != GitHubItemKind::Comment => {
            let mut text = title.clone();
            text.append("\n\n");
            text.append(item.body.as_str());
            text
        },
        _ => item.body.clone(),
    };
    MessageEnvelope {
        id: MessageId(id),
        source: Source::GitHub,
        author: Author {
            id: AuthorId(item.author_login.clone()),
            display_name: item.author_login.clone(),
        },
        conversation: Conversation { id: ConversationId(conversation), thread: None },
        body,
    }
}

} // verus!
