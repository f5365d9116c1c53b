//! GitHub items, drafts and ingestion.

use mirrorlane::double::Double;
use mirrorlane::github::consumer::draft_for;
use mirrorlane::github::consumer::DraftKind;
use mirrorlane::github::consumer::GitHubConsumer;
use mirrorlane::github::model::to_message;
use mirrorlane::github::model::GitHubItem;
use mirrorlane::github::model::GitHubItemKind;
use mirrorlane::github::model::Repo;
use mirrorlane::github::rest::number_from_issue_url;
use mirrorlane::github::rest::CommentRecord;
use mirrorlane::github::rest::GitHubFetchError;
use mirrorlane::github::rest::IssueRecord;
use mirrorlane::github::rest::RestGitHubSource;
use mirrorlane::github::rest::DEFAULT_BASE_URL;
use mirrorlane::github::source::ingest_repo;
use mirrorlane::github::source::FixtureGitHubSource;
use mirrorlane::github::source::GitHubSource;
use mirrorlane::model::message::AuthorId;
use mirrorlane::model::message::ConversationId;
use mirrorlane::model::message::MessageId;
use mirrorlane::model::message::Source;
use mirrorlane::model::message_log::InMemoryMessageStore;
use mirrorlane::model::message_log::MessageStore;
use mirrorlane::model::projection::Confidence;
use mirrorlane::model::projection::Entity;
use mirrorlane::model::projection::Intent;
use mirrorlane::model::projection::Projection;
use mirrorlane::model::projection::Topic;
use mirrorlane::model::routing::Consumer;
use mirrorlane::model::routing::ConsumerKind;
use mirrorlane::model::routing::RoutingDecision;

fn projection(intent: Intent) -> Projection {
    Projection {
        message_id: MessageId("m-1".into()),
        intent,
        topics: vec![Topic("auth".into())],
        entities: vec![Entity("refresh-token".into())],
        confidence: Confidence::new(Double::from_bits(0.8f64.to_bits())),
    }
}

fn decision() -> RoutingDecision {
    RoutingDecision {
        message_id: MessageId("m-1".into()),
        target: ConsumerKind::GitHub,
        reason: "test".into(),
        escalated: false,
    }
}

#[test]
fn proposal_drafts_a_pull_request() {
    assert_eq!(
        draft_for(&projection(Intent::Proposal)).kind,
        DraftKind::PullRequest
    );
    assert_eq!(
        draft_for(&projection(Intent::Proposal)).title,
        "Proposal: auth"
    );
}

#[test]
fn other_intents_draft_an_issue() {
    assert_eq!(draft_for(&projection(Intent::Issue)).kind, DraftKind::Issue);
    assert_eq!(draft_for(&projection(Intent::Task)).kind, DraftKind::Issue);
}

#[test]
fn drafting_is_stable() {
    let p = projection(Intent::Issue);
    assert_eq!(draft_for(&p), draft_for(&p));
}

#[test]
fn a_draft_summarizes_its_projection() {
    let mut p = projection(Intent::Issue);
    p.topics.push(Topic("sdk".into()));
    let draft = draft_for(&p);
    assert_eq!(draft.title, "[auth] issue");
    assert_eq!(
        draft.body,
        "Auto-drafted from message m-1 (confidence 0.80).\n\nTopics: auth, sdk\nEntities: refresh-token"
    );
    p.topics = Vec::new();
    p.entities = vec![Entity("".into())];
    let draft = draft_for(&p);
    assert_eq!(draft.title, "[general] issue");
    assert_eq!(
        draft.body,
        "Auto-drafted from message m-1 (confidence 0.80).\n\nTopics: —\nEntities: —"
    );
}

#[test]
fn consuming_records_one_draft_idempotently() {
    let mut consumer = GitHubConsumer::new();
    assert!(consumer.is_empty());
    consumer
        .consume(&decision(), &projection(Intent::Issue))
        .expect("consume");
    consumer
        .consume(&decision(), &projection(Intent::Issue))
        .expect("consume");
    assert_eq!(consumer.len(), 1, "re-delivery records one draft");
    assert!(consumer.get(&MessageId("m-1".into())).is_some());
    assert!(consumer.get(&MessageId("m-2".into())).is_none());
}

fn repo() -> Repo {
    Repo::new("acme", "widgets")
}

fn issue() -> GitHubItem {
    GitHubItem {
        kind: GitHubItemKind::Issue,
        repo: repo(),
        number: 7,
        id: "7".into(),
        author_login: "alice".into(),
        title: Some("Login is broken".into()),
        body: "Steps to reproduce...".into(),
    }
}

fn comment() -> GitHubItem {
    GitHubItem {
        kind: GitHubItemKind::Comment,
        repo: repo(),
        number: 7,
        id: "c-100".into(),
        author_login: "bob".into(),
        title: None,
        body: "I can repro too.".into(),
    }
}

#[test]
fn item_maps_to_a_github_sourced_message() {
    let message = to_message(&issue());
    assert_eq!(message.source, Source::GitHub);
    assert_eq!(message.author.id, AuthorId("alice".into()));
    assert_eq!(
        message.conversation.id,
        ConversationId("github:acme/widgets#7".into())
    );
    assert!(message.body.starts_with("Login is broken"));
    assert_eq!(message.id, MessageId("github:acme/widgets:issue:7".into()));
    assert_eq!(message.body, "Login is broken\n\nSteps to reproduce...");
}

#[test]
fn issue_and_comment_share_a_conversation() {
    let issue_msg = to_message(&issue());
    let comment_msg = to_message(&comment());
    assert_eq!(issue_msg.conversation.id, comment_msg.conversation.id);
    assert_ne!(issue_msg.id, comment_msg.id);
    let mut titled = comment();
    titled.title = Some("ignored".into());
    assert_eq!(to_message(&titled).body, "I can repro too.");
}

#[test]
fn mapping_is_stable() {
    assert_eq!(to_message(&issue()), to_message(&issue()));
}

#[test]
fn message_ids_tell_items_apart() {
    let issue = issue();
    let mut pull = issue.clone();
    pull.kind = GitHubItemKind::PullRequest;
    let mut remark = issue.clone();
    remark.kind = GitHubItemKind::Comment;
    let mut elsewhere = issue.clone();
    elsewhere.repo = Repo::new("other", "repo");
    let mut later = issue.clone();
    later.id = "another".into();
    let all = [issue, pull, remark, elsewhere, later];
    for (i, a) in all.iter().enumerate() {
        for (j, b) in all.iter().enumerate() {
            assert_eq!(to_message(a).id == to_message(b).id, i == j);
        }
    }
}

#[test]
fn parses_a_number_from_an_issue_url() {
    assert_eq!(
        number_from_issue_url("https://api.github.com/repos/acme/widgets/issues/42"),
        42
    );
}

#[test]
fn a_url_without_a_number_gives_zero() {
    for (url, number) in [
        ("", 0),
        ("issues/", 0),
        ("issues/x1", 0),
        ("17", 17),
        ("issues/+17", 17),
        ("issues/-17", 0),
        ("issues/+", 0),
        ("issues/18446744073709551615", u64::MAX),
        ("issues/18446744073709551616", 0),
        ("issues/007", 7),
    ] {
        assert_eq!(number_from_issue_url(url), number, "{url}");
        assert_eq!(
            url.rsplit('/').next().and_then(|n| n.parse().ok()).unwrap_or(0),
            number
        );
    }
}

#[test]
fn token_is_sent_only_to_the_default_host() {
    assert!(RestGitHubSource::new(DEFAULT_BASE_URL, Some("t".into())).sends_token());
    assert!(!RestGitHubSource::new("https://ghe.example.com", Some("t".into())).sends_token());
    assert!(!RestGitHubSource::new(DEFAULT_BASE_URL, None).sends_token());
}

#[test]
fn a_withheld_token_is_announced() {
    let source = RestGitHubSource::new(DEFAULT_BASE_URL, Some("t".into()));
    assert_eq!(source.authorization().as_deref(), Some("token t"));
    assert_eq!(source.withheld_notice(), None);
    let source = RestGitHubSource::new("https://ghe.example.com", Some("t".into()));
    assert_eq!(source.authorization(), None);
    assert_eq!(
        source.withheld_notice().as_deref(),
        Some("github: withholding GITHUB_TOKEN for non-default base URL https://ghe.example.com (token is only sent to https://api.github.com)")
    );
    assert_eq!(
        source.issues_url(&repo()),
        "https://ghe.example.com/repos/acme/widgets/issues?state=all&per_page=100"
    );
    assert_eq!(
        source.comments_url(&repo()),
        "https://ghe.example.com/repos/acme/widgets/issues/comments?per_page=100"
    );
}

fn listed() -> Vec<IssueRecord> {
    vec![
        IssueRecord {
            number: 7,
            title: Some("Login is broken".into()),
            body: None,
            login: "alice".into(),
            is_pull_request: false,
        },
        IssueRecord {
            number: 8,
            title: None,
            body: Some("fix".into()),
            login: "bob".into(),
            is_pull_request: true,
        },
    ]
}

fn commented() -> Vec<CommentRecord> {
    vec![CommentRecord {
        id: 100,
        body: Some("same here".into()),
        login: "carol".into(),
        issue_url: "https://api.github.com/repos/acme/widgets/issues/7".into(),
    }]
}

#[test]
fn answers_become_items() {
    let source = RestGitHubSource::new(DEFAULT_BASE_URL, None);
    let items = source
        .try_fetch(&repo(), Ok(listed()), Ok(commented()))
        .expect("items");
    assert_eq!(items.len(), 3);
    assert_eq!(items[0].kind, GitHubItemKind::Issue);
    assert_eq!(items[0].id, "7");
    assert_eq!(items[0].body, "");
    assert_eq!(items[1].kind, GitHubItemKind::PullRequest);
    assert_eq!(items[2].kind, GitHubItemKind::Comment);
    assert_eq!(items[2].id, "c-100");
    assert_eq!(items[2].number, 7);
    assert_eq!(
        to_message(&items[0]).conversation.id,
        to_message(&items[2]).conversation.id
    );
}

#[test]
fn comments_are_asked_for_after_the_issues_and_never_after_a_failure() {
    let source = RestGitHubSource::new("https://ghe.example", None);
    let named = Repo::new("mirror", "lane");
    assert_eq!(
        source.next_request(&named, None).as_deref(),
        Some("https://ghe.example/repos/mirror/lane/issues?state=all&per_page=100")
    );
    assert_eq!(
        source.next_request(&named, Some(&Ok(listed()))).as_deref(),
        Some("https://ghe.example/repos/mirror/lane/issues/comments?per_page=100")
    );
    let failed = Err(GitHubFetchError::Transport("down".into()));
    assert_eq!(source.next_request(&named, Some(&failed)), None);
}

#[test]
fn a_failed_answer_is_the_error() {
    let source = RestGitHubSource::new(DEFAULT_BASE_URL, None);
    let errors = [
        (
            GitHubFetchError::Transport("dns".into()),
            "github request failed: dns",
        ),
        (
            GitHubFetchError::Status {
                code: 404,
                message: "Not Found".into(),
            },
            "github returned HTTP 404 Not Found",
        ),
        (
            GitHubFetchError::Read("eof".into()),
            "github response was not readable: eof",
        ),
        (
            GitHubFetchError::Parse("bad".into()),
            "github response was malformed: bad",
        ),
    ];
    for (error, text) in errors {
        let e = source
            .try_fetch(&repo(), Err(error), Ok(commented()))
            .expect_err("fails");
        assert_eq!(e.message(), text);
    }
    let e = source
        .try_fetch(
            &repo(),
            Ok(listed()),
            Err(GitHubFetchError::Read("eof".into())),
        )
        .expect_err("fails");
    assert_eq!(e, GitHubFetchError::Read("eof".into()));
}

fn item(id: &str, number: u64) -> GitHubItem {
    GitHubItem {
        kind: GitHubItemKind::Issue,
        repo: repo(),
        number,
        id: id.into(),
        author_login: "alice".into(),
        title: Some("Title".into()),
        body: "Body".into(),
    }
}

#[test]
fn fixture_returns_its_items() {
    let source = FixtureGitHubSource::new(vec![item("1", 1)]);
    assert_eq!(source.fetch(&repo()).len(), 1);
}

#[test]
fn ingesting_appends_one_message_per_item() {
    let source = FixtureGitHubSource::new(vec![item("1", 1), item("2", 2)]);
    let mut store = InMemoryMessageStore::new();
    let ids = ingest_repo(&source, &repo(), &mut store);

    assert_eq!(ids.len(), 2);
    assert_eq!(store.len(), 2);
    for message in store.all() {
        assert_eq!(message.source, Source::GitHub);
    }
}

#[test]
fn re_ingesting_does_not_duplicate() {
    let source = FixtureGitHubSource::new(vec![item("1", 1), item("2", 2)]);
    let mut store = InMemoryMessageStore::new();
    ingest_repo(&source, &repo(), &mut store);
    let before = store.all();
    ingest_repo(&source, &repo(), &mut store);

    assert_eq!(store.len(), 2, "stable ids dedup on re-ingest");
    assert_eq!(store.all(), before);
}
