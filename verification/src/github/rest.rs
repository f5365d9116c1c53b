//! A [`GitHubSource`](super::source::GitHubSource) over the GitHub REST API: what is
//! asked, and what
//! the answers mean. The requests themselves are made elsewhere.

use super::model::GitHubItem;
use super::model::GitHubItemKind;
use super::model::GitHubItemView;
use super::model::Repo;
use super::model::RepoView;
use crate::model::seqs::view_of;
use crate::model::seqs::views;
use crate::text::cat;
use crate::text::cat3;
use crate::text::chars_of;
use crate::text::decimal;
use crate::text::decimal_text;
use crate::text::parse_u64;
use crate::text::parsed;
use crate::text::push_decimal;
use crate::text::same;
use crate::text::text_of;
use vstd::prelude::*;

verus! {

/// The default base URL of the GitHub REST API.
pub const DEFAULT_BASE_URL: &'static str = "https://api.github.com";

/// A failure fetching from the GitHub REST API.
#[derive(Debug, PartialEq, Eq)]
pub enum GitHubFetchError {
    /// The request never produced a response.
    Transport(String),
    /// The server returned a non-success status.
    Status { code: u16, message: String },
    /// The response body could not be read.
    Read(String),
    /// The response body was not of the expected shape.
    Parse(String),
}

/// The error as shown to a user.
pub open spec fn fetch_error_text(error: GitHubFetchError) -> Seq<char> {
    match error {
        GitHubFetchError::Transport(e) => "github request failed: "@ + e@,
        GitHubFetchError::Status { code, message } => "github returned HTTP "@ + decimal(code as nat)
            + " "@ + message@,
        GitHubFetchError::Read(e) => "github response was not readable: "@ + e@,
        GitHubFetchError::Parse(e) => "github response was malformed: "@ + e@,
    }
}

impl GitHubFetchError {
    /// The error as shown to a user.
    pub fn message(&self) -> (r: String)
        ensures
            r@ == fetch_error_text(*self),
    {
        match self {
            GitHubFetchError::Transport(e) => cat("github request failed: ", e.as_str()),
            GitHubFetchError::Status { code, message } => {
                let mut out = "github returned HTTP ".to_string();
                push_decimal(&mut out, *code as u64);
                out.append(" ");
                out.append(message.as_str());
                out
            },
            GitHubFetchError::Read(e) => cat("github response was not readable: ", e.as_str()),
            GitHubFetchError::Parse(e) => cat("github response was malformed: ", e.as_str()),
        }
    }
}

/// An issue or pull request as the API lists it.
#[derive(Debug, PartialEq, Eq)]
pub struct IssueRecord {
    pub number: u64,
    pub title: Option<String>,
    pub body: Option<String>,
    pub login: String,
    pub is_pull_request: bool,
}

/// The contents of a [`IssueRecord`].
pub struct IssueRecordView {
    pub number: u64,
    pub title: Option<Seq<char>>,
    pub body: Option<Seq<char>>,
    pub login: Seq<char>,
    pub is_pull_request: bool,
}

impl View for IssueRecord {
    type V = IssueRecordView;

    open spec fn view(&self) -> IssueRecordView {
        IssueRecordView {
            number: self.number,
            title: view_of(self.title),
            body: view_of(self.body),
            login: self.login@,
            is_pull_request: self.is_pull_request,
        }
    }
}

impl Clone for IssueRecord {
    fn clone(&self) -> (r: Self)
        ensures
            r@ == self@,
    {
        let r = IssueRecord {
            number: self.number,
            title: self.title.clone(),
            body: self.body.clone(),
            login: self.login.clone(),
            is_pull_request: self.is_pull_request,
        };
        r
    }
}

/// A comment as the API lists it.
#[derive(Debug, PartialEq, Eq)]
pub struct CommentRecord {
    pub id: u64,
    pub body: Option<String>,
    pub login: String,
    pub issue_url: String,
}

/// The contents of a [`CommentRecord`].
pub struct CommentRecordView {
    pub id: u64,
    pub body: Option<Seq<char>>,
    pub login: Seq<char>,
    pub issue_url: Seq<char>,
}

impl View for CommentRecord {
    type V = CommentRecordView;

    open spec fn view(&self) -> CommentRecordView {
        CommentRecordView {
            id: self.id,
            body: view_of(self.body),
            login: self.login@,
            issue_url: self.issue_url@,
        }
    }
}

impl Clone for CommentRecord {
    fn clone(&self) -> (r: Self)
        ensures
            r@ == self@,
    {
        let r = CommentRecord {
            id: self.id,
            body: self.body.clone(),
            login: self.login.clone(),
            issue_url: self.issue_url.clone(),
        };
        r
    }
}

/// The part of a text after its last slash.
pub open spec fn after_last_slash(s: Seq<char>) -> Seq<char>
    decreases s.len(),
{
    if s.len() == 0 {
        Seq::empty()
    } else if s.last() == '/' {
        Seq::empty()
    } else {
        after_last_slash(s.drop_last()).push(s.last())
    }
}

/// The number at the end of an issue URL, or zero.
pub open spec fn issue_number(issue_url: Seq<char>) -> u64 {
    match parsed(after_last_slash(issue_url), u64::MAX as nat) {
        Some(n) => n as u64,
        None => 0,
    }
}

/// The number of the issue or pull request that a comment's `issue_url` points
/// at, best effort.
pub fn number_from_issue_url(issue_url: &str) -> (r: u64)
    ensures
        r == issue_number(issue_url@),
{
    let chars = chars_of(issue_url);
    let mut from: usize = chars.len();
    proof {
        assert(chars@.subrange(from as int, chars@.len() as int) =~= Seq::<char>::empty());
        assert(chars@.take(from as int) =~= chars@);
        assert(after_last_slash(chars@) =~= after_last_slash(chars@) + Seq::<char>::empty());
    }
    while from > 0 && chars[from - 1] != '/'
        invariant
            from <= chars@.len(),
            after_last_slash(chars@) == after_last_slash(chars@.take(from as int))
                + chars@.subrange(from as int, chars@.len() as int),
        decreases from,
    {
        proof {
            let head = chars@.take(from as int);
            assert(head.drop_last() =~= chars@.take(from - 1));
            assert(head.last() == chars@[from - 1]);
            assert(after_last_slash(head) + chars@.subrange(from as int, chars@.len() as int)
                =~= after_last_slash(chars@.take(from - 1)) + chars@.subrange(
                from - 1,
                chars@.len() as int,
            ));
        }
        from = from - 1;
    }
    proof {
        assert(after_last_slash(chars@.take(from as int)) =~= Seq::<char>::empty());
        assert(after_last_slash(chars@) =~= chars@.subrange(from as int, chars@.len() as int));
    }
    let tail = text_of(&chars, from, chars.len());
    match parse_u64(tail.as_str()) {
        Some(n) => n,
        None => 0,
    }
}

/// The item of a listed issue or pull request.
pub open spec fn issue_item(repo: RepoView, issue: IssueRecordView) -> GitHubItemView {
    GitHubItemView {
        kind: if issue.is_pull_request {
            GitHubItemKind::PullRequest
        } else {
            GitHubItemKind::Issue
        },
        repo,
        number: issue.number,
        id: decimal(issue.number as nat),
        author_login: issue.login,
        title: issue.title,
        body: match issue.body {
            Some(body) => body,
            None => Seq::empty(),
        },
    }
}

/// The item of a listed comment.
pub open spec fn comment_item(repo: RepoView, comment: CommentRecordView) -> GitHubItemView {
    GitHubItemView {
        kind: GitHubItemKind::Comment,
        repo,
        number: issue_number(comment.issue_url),
        id: "c-"@ + decimal(comment.id as nat),
        author_login: comment.login,
        title: None,
        body: match comment.body {
            Some(body) => body,
            None => Seq::empty(),
        },
    }
}

/// The items of a repository: its issues and pull requests, then its comments.
pub open spec fn repo_items(
    repo: RepoView,
    issues: Seq<IssueRecordView>,
    comments: Seq<CommentRecordView>,
) -> Seq<GitHubItemView> {
    issues.map_values(|i: IssueRecordView| issue_item(repo, i)) + comments.map_values(
        |c: CommentRecordView| comment_item(repo, c),
    )
}

/// A source over the GitHub REST API.
pub struct RestGitHubSource {
    base_url: String,
    token: Option<String>,
}

/// The contents of a [`RestGitHubSource`].
pub struct RestGitHubSourceView {
    pub base_url: Seq<char>,
    pub token: Option<Seq<char>>,
}

impl View for RestGitHubSource {
    type V = RestGitHubSourceView;

    closed spec fn view(&self) -> RestGitHubSourceView {
        RestGitHubSourceView { base_url: self.base_url@, token: view_of(self.token) }
    }
}

/// Where the issues and pull requests of a repository are listed.
pub open spec fn issues_address(base_url: Seq<char>, repo: RepoView) -> Seq<char> {
    base_url + "/repos/"@ + repo.owner + "/"@ + repo.name + "/issues?state=all&per_page=100"@
}

/// Where the comments of a repository are listed.
pub open spec fn comments_address(base_url: Seq<char>, repo: RepoView) -> Seq<char> {
    base_url + "/repos/"@ + repo.owner + "/"@ + repo.name + "/issues/comments?per_page=100"@
}

impl RestGitHubSource {
    /// Builds a source against `base_url` with an optional token.
    pub fn new(base_url: &str, token: Option<String>) -> (r: Self)
        ensures
            r@ == (RestGitHubSourceView { base_url: base_url@, token: view_of(token) }),
    {
        RestGitHubSource { base_url: base_url.to_string(), token }
    }

    /// Whether the token goes out: only if there is one, and only to the default
    /// host.
    pub fn sends_token(&self) -> (r: bool)
        ensures
            r == (self@.token is Some && self@.base_url == "https://api.github.com"@),
    {
        self.token.is_some() && same(self.base_url.as_str(), DEFAULT_BASE_URL)
    }

    /// The `Authorization` header of a request, if it has one.
    pub fn authorization(&self) -> (r: Option<String>)
        ensures
            match r {
                Some(header) => self@.base_url == "https://api.github.com"@ && self@.token
                    is Some && header@ == "token "@ + self@.token->Some_0,
                None => !(self@.token is Some && self@.base_url == "https://api.github.com"@),
            },
    {
        match &self.token {
            Some(token) => {
                if self.sends_token() {
                    Some(cat("token ", token.as_str()))
                } else {
                    None
                }
            },
            None => None,
        }
    }

    /// What to tell the operator where a token is withheld.
    pub fn withheld_notice(&self) -> (r: Option<String>)
        ensures
            match r {
                Some(notice) => self@.token is Some && self@.base_url != "https://api.github.com"@
                    && notice@ == "github: withholding GITHUB_TOKEN for non-default base URL "@
                    + self@.base_url + " (token is only sent to "@ + "https://api.github.com"@
                    + ")"@,
                None => self@.token is None || self@.base_url == "https://api.github.com"@,
            },
    {
        if self.token.is_some() && !same(self.base_url.as_str(), DEFAULT_BASE_URL) {
            let mut out = cat3(
                "github: withholding GITHUB_TOKEN for non-default base URL ",
                self.base_url.as_str(),
                " (token is only sent to ",
            );
            out.append(DEFAULT_BASE_URL);
            out.append(")");
            Some(out)
        } else {
            None
        }
    }

    /// The start of a repository's URLs.
    fn repo_url(&self, repo: &Repo) -> (r: String)
        ensures
            r@ == self@.base_url + "/repos/"@ + repo@.owner + "/"@ + repo@.name,
    {
        let mut out = self.base_url.clone();
        out.append("/repos/");
        out.append(repo.owner.as_str());
        out.append("/");
        out.append(repo.name.as_str());
        out
    }

    /// Where the issues and pull requests of a repository are listed.
    pub fn issues_url(&self, repo: &Repo) -> (r: String)
        ensures
            r@ == issues_address(self@.base_url, repo@),
    {
        let mut out = self.repo_url(repo);
        out.append("/issues?state=all&per_page=100");
        out
    }

    /// Where the comments of a repository are listed.
    pub fn comments_url(&self, repo: &Repo) -> (r: String)
        ensures
            r@ == comments_address(self@.base_url, repo@),
    {
        let mut out = self.repo_url(repo);
        out.append("/issues/comments?per_page=100");
        out
    }

    /// The next request for a repository's items, given the answer on its issues if
    /// there is one: first the issues, then the comments, and none after a failure.
    pub fn next_request(
        &self,
        repo: &Repo,
        issues: Option<&Result<Vec<IssueRecord>, GitHubFetchError>>,
    ) -> (r: Option<String>)
        ensures
            match issues {
                None => r matches Some(url) && url@ == issues_address(self@.base_url, repo@),
                Some(Ok(_)) => r matches Some(url) && url@ == comments_address(
                    self@.base_url,
                    repo@,
                ),
                Some(Err(_)) => r is None,
            },
    {
        match issues {
            None => Some(self.issues_url(repo)),
            Some(Ok(_)) => Some(self.comments_url(repo)),
            Some(Err(_)) => None,
        }
    }

    /// A repository's items from the two answers of the API; a failed answer is
    /// the error, that of the issues first.
    pub fn try_fetch(
        &self,
        repo: &Repo,
        issues: Result<Vec<IssueRecord>, GitHubFetchError>,
        comments: Result<Vec<CommentRecord>, GitHubFetchError>,
    ) -> (r: Result<Vec<GitHubItem>, GitHubFetchError>)
        ensures
            match (issues, comments) {
                (Ok(i), Ok(c)) => r matches Ok(items) && views(items@) == repo_items(
                    repo@,
                    views(i@),
                    views(c@),
                ),
                (Ok(_), Err(e)) => r == Err::<Vec<GitHubItem>, GitHubFetchError>(e),
                (Err(e), _) => r == Err::<Vec<GitHubItem>, GitHubFetchError>(e),
            },
    {
        let issue_list = match issues {
            Ok(list) => list,
            Err(e) => {
                return Err(e);
            },
        };
        let comment_list = match comments {
            Ok(list) => list,
            Err(e) => {
                return Err(e);
            },
        };
        let ghost want = repo_items(repo@, views(issue_list@), views(comment_list@));
        let mut items: Vec<GitHubItem> = Vec::new();
        let mut i: usize = 0;
        while i < issue_list.len()
            invariant
                i <= issue_list@.len(),
                items@.len() == i,
                want == repo_items(repo@, views(issue_list@), views(comment_list@)),
                forall|j: int| 0 <= j < i ==> (#[trigger] items@[j])@ == want[j],
            decreases issue_list@.len() - i,
        {
            let issue = &issue_list[i];
            let body = match &issue.body {
                Some(body) => body.clone(),
                None => String::new(),
            };
            let title = match &issue.title {
                Some(title) => Some(title.clone()),
                None => None,
            };
            let item = GitHubItem {
                kind: if issue.is_pull_request {
                    GitHubItemKind::PullRequest
                } else {
                    GitHubItemKind::Issue
                },
                repo: repo.clone(),
                number: issue.number,
                id: decimal_text(issue.number),
                author_login: issue.login.clone(),
                title,
                body,
            };
            proof {
                assert(views(issue_list@)[i as int] == issue@);
                assert(item@ == issue_item(repo@, issue@));
            }
            items.push(item);
            i = i + 1;
        }
        let ghost count = issue_list@.len();
        let mut k: usize = 0;
        while k < comment_list.len()
            invariant
                k <= comment_list@.len(),
                count == issue_list@.len(),
                items@.len() == count + k,
                want == repo_items(repo@, views(issue_list@), views(comment_list@)),
                forall|j: int| 0 <= j < count + k ==> (#[trigger] items@[j])@ == want[j],
            decreases comment_list@.len() - k,
        {
            let comment = &comment_list[k];
            let body = match &comment.body {
                Some(body) => body.clone(),
                None => String::new(),
            };
            let item = GitHubItem {
                kind: GitHubItemKind::Comment,
                repo: repo.clone(),
                number: number_from_issue_url(comment.issue_url.as_str()),
                id: cat("c-", decimal_text(comment.id).as_str()),
                author_login: comment.login.clone(),
                title: None,
                body,
            };
            proof {
                assert(views(comment_list@)[k as int] == comment@);
                assert(item@ == comment_item(repo@, comment@));
            }
            items.push(item);
            k = k + 1;
        }
        assert(views(items@) =~= want);
        Ok(items)
    }
}

} // verus!
