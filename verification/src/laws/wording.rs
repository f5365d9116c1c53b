//! Laws of wording: the ids, versions, addresses, requests and messages that others
//! read.

use super::reading::a_numeral_reads_back;
use crate::cli::broker::failure_text;
use crate::cli::broker::planned;
use crate::cli::broker::url_notice;
use crate::cli::broker::BrokerKind;
use crate::cli::broker::BrokerPlan;
use crate::cli::broker::BrokerSettings;
use crate::cli::commands::is_repo;
use crate::cli::commands::repo_slash;
use crate::cli::settings::complaint_text;
use crate::cli::settings::invalid_value;
use crate::cli::settings::unprojected_text;
use crate::github::model::item_message;
use crate::github::model::GitHubItemKind;
use crate::github::model::GitHubItemView;
use crate::github::rest::comments_address;
use crate::github::rest::fetch_error_text;
use crate::github::rest::issues_address;
use crate::github::rest::GitHubFetchError;
use crate::llm::json_text;
use crate::llm::ollama::OllamaClient;
use crate::llm::openai::OpenAiClient;
use crate::llm::tag_text;
use crate::llm::LlmClient;
use crate::llm::LlmProjector;
use crate::llm::PROMPT_TEMPLATE;
use crate::model::derivation::composed_version;
use crate::model::digest::digest;
use crate::model::projection::Intent;
use crate::model::routing::ConsumerKind;
use crate::provider::routing::intent_name;
use crate::provider::routing::target_name;
use crate::provider::scope::catalog;
use crate::provider::scope::component_of;
use crate::text::decimal;
use crate::text::digits_number;
use crate::text::joined;
use crate::text::parsed;
use crate::text::quoted;
use crate::worker::observer::outcome_name;
use crate::worker::observer::JobOutcome;
use crate::worker::registry::builtin_strategies;
use crate::worker::registry::BuiltinStrategy;
use crate::worker::routed_work::routed_work_key;
use vstd::prelude::*;

verus! {

/// The names by which intents, targets and outcomes go.
pub proof fn names_are_fixed(intent: Intent, target: ConsumerKind, outcome: JobOutcome)
    ensures
        intent_name(intent) == match intent {
            Intent::Question => "question"@,
            Intent::Decision => "decision"@,
            Intent::Proposal => "proposal"@,
            Intent::Task => "task"@,
            Intent::Issue => "issue"@,
            Intent::Social => "social"@,
        },
        target_name(target) == match target {
            ConsumerKind::Human => "human"@,
            ConsumerKind::Agent => "agent"@,
            ConsumerKind::WorklaneJob => "worklane-job"@,
            ConsumerKind::GitHub => "github"@,
        },
        outcome_name(outcome) == match outcome {
            JobOutcome::Acked => "acked"@,
            JobOutcome::Retried => "retried"@,
            JobOutcome::DeadLettered => "dead_lettered"@,
            JobOutcome::Other => "unknown"@,
        },
{
}

/// The components of the catalog, and the keywords that name them.
pub proof fn the_catalog_is_fixed(keyword: Seq<char>, component: Seq<char>)
    ensures
        catalog() == seq![
            "auth-sdk"@,
            "oauth2"@,
            "token-refresh"@,
            "web-ui"@,
            "analytics"@,
            "billing"@,
        ],
        component_of(keyword) == Some("auth-sdk"@) <==> keyword == "auth"@ || keyword == "sdk"@,
        component_of(keyword) == Some("oauth2"@) <==> keyword == "oauth"@ || keyword == "oauth2"@,
        component_of(keyword) == Some("token-refresh"@) <==> keyword == "refresh-token"@,
        component_of(keyword) == Some("web-ui"@) <==> keyword == "web"@ || keyword == "ui"@
            || keyword == "web-ui"@,
        component_of(keyword) == Some("analytics"@) <==> keyword == "analytics"@,
        component_of(keyword) == Some("billing"@) <==> keyword == "billing"@,
        component_of(keyword) == Some(component) ==> catalog().contains(component),
{
    reveal_strlit("auth-sdk");
    reveal_strlit("oauth2");
    reveal_strlit("token-refresh");
    reveal_strlit("web-ui");
    reveal_strlit("analytics");
    reveal_strlit("billing");
    reveal_strlit("auth");
    reveal_strlit("sdk");
    reveal_strlit("oauth");
    reveal_strlit("refresh-token");
    reveal_strlit("web");
    reveal_strlit("ui");
    let c = catalog();
    assert(c =~= seq![
        "auth-sdk"@,
        "oauth2"@,
        "token-refresh"@,
        "web-ui"@,
        "analytics"@,
        "billing"@,
    ]);
    assert("auth-sdk"@[0] == 'a' && "auth-sdk"@[1] == 'u');
    assert("oauth2"@[0] == 'o');
    assert("token-refresh"@[0] == 't');
    assert("web-ui"@[0] == 'w' && "web-ui"@.len() == 6);
    assert("analytics"@[0] == 'a' && "analytics"@[1] == 'n');
    assert("billing"@[0] == 'b');
    assert("auth"@[0] == 'a' && "auth"@[1] == 'u' && "auth"@.len() == 4);
    assert("sdk"@[0] == 's');
    assert("oauth"@[0] == 'o' && "oauth"@.len() == 5 && "oauth2"@.len() == 6);
    assert("refresh-token"@[0] == 'r');
    assert("web"@[0] == 'w' && "web"@.len() == 3);
    assert("ui"@[0] == 'u');
    assert(c[0] == "auth-sdk"@);
    assert(c[1] == "oauth2"@);
    assert(c[2] == "token-refresh"@);
    assert(c[3] == "web-ui"@);
    assert(c[4] == "analytics"@);
    assert(c[5] == "billing"@);
}

/// The strategies that can be selected, and no other.
pub proof fn the_builtin_strategies_are_two(id: Seq<char>)
    ensures
        builtin_strategies().contains_key(id) <==> id == "projection"@ || id == "empty"@,
        builtin_strategies()["projection"@] == BuiltinStrategy::Projection,
        builtin_strategies()["empty"@] == BuiltinStrategy::Empty,
{
    reveal_strlit("projection");
    reveal_strlit("empty");
    assert("projection"@[0] != "empty"@[0]);
}

/// A derivation version is the schema version, the strategy and the projector's
/// version; a projection tag the provider, the model and the prompt version.
pub proof fn versions_name_their_parts(a: Seq<char>, b: Seq<char>, c: Seq<char>)
    ensures
        composed_version(a, b) == "1:"@ + a + ":"@ + b,
        tag_text(a, b, c) == a + ":"@ + b + ":"@ + c,
{
    reveal_strlit("1:");
    reveal_strlit("1");
    reveal_strlit(":");
    assert("1:"@ =~= "1"@ + ":"@);
    assert(composed_version(a, b) =~= "1:"@ + a + ":"@ + b);
}

/// A language-model projector is cached under its tag and the digest of its prompt.
pub proof fn a_cache_version_covers_the_prompt<C: LlmClient>(projector: &LlmProjector<C>)
    ensures
        projector.cache_version_spec() == projector.client_spec().tag_spec() + ":"@
            + projector.model_spec() + ":"@ + projector.prompt_version_spec() + ":"@ + digest(
            seq![PROMPT_TEMPLATE@ + "\n"@ + "1"@],
        ),
{
    assert(PROMPT_TEMPLATE@ + Seq::<char>::empty() =~= PROMPT_TEMPLATE@);
}

/// What is sent to each backend: the model and the prompt as JSON strings, to its own
/// address, with the key where there is one.
pub proof fn requests_carry_model_and_prompt(
    ollama: &OllamaClient,
    openai: &OpenAiClient,
    model: Seq<char>,
    prompt: Seq<char>,
)
    ensures
        ({
            let sent = ollama.request_spec(model, prompt);
            &&& sent.url == ollama@ + "/api/generate"@
            &&& sent.authorization is None
            &&& sent.body == "{\"format\":\"json\",\"model\":"@ + json_text(model)
                + ",\"prompt\":"@ + json_text(prompt) + ",\"stream\":false}"@
        }),
        ({
            let sent = openai.request_spec(model, prompt);
            &&& sent.url == openai@.base_url + "/chat/completions"@
            &&& sent.body == "{\"messages\":[{\"content\":"@ + json_text(prompt)
                + ",\"role\":\"user\"}],\"model\":"@ + json_text(model)
                + ",\"response_format\":{\"type\":\"json_object\"}}"@
            &&& sent.authorization is Some <==> openai@.api_key is Some
            &&& openai@.api_key matches Some(key) ==> sent.authorization == Some(
                "Bearer "@ + key,
            )
        }),
        ollama.tag_spec() == "ollama"@,
        openai.tag_spec() == "openai"@,
{
}

/// The ids, addresses and keys that name messages, items and work.
pub proof fn ids_name_what_they_are_of(item: GitHubItemView, base: Seq<char>, id: Seq<char>)
    ensures
        item_message(item).id == "github:"@ + item.repo.owner + "/"@ + item.repo.name + ":"@
            + match item.kind {
            GitHubItemKind::Issue => "issue"@,
            GitHubItemKind::PullRequest => "pull-request"@,
            GitHubItemKind::Comment => "comment"@,
        } + ":"@ + item.id,
        issues_address(base, item.repo) == base + "/repos/"@ + item.repo.owner + "/"@
            + item.repo.name + "/issues?state=all&per_page=100"@,
        comments_address(base, item.repo) == base + "/repos/"@ + item.repo.owner + "/"@
            + item.repo.name + "/issues/comments?per_page=100"@,
        routed_work_key(id) == "mirrorlane.routed_work"@ + ":"@ + id,
{
}

/// What an operator is told when something fails.
pub proof fn failures_say_what_failed(
    error: GitHubFetchError,
    queue: Seq<char>,
    cause: Seq<char>,
    name: Seq<char>,
    value: Seq<char>,
    ids: Seq<Seq<char>>,
)
    ensures
        fetch_error_text(error) == match error {
            GitHubFetchError::Transport(e) => "github request failed: "@ + e@,
            GitHubFetchError::Status { code, message } => "github returned HTTP "@ + decimal(
                code as nat,
            ) + " "@ + message@,
            GitHubFetchError::Read(e) => "github response was not readable: "@ + e@,
            GitHubFetchError::Parse(e) => "github response was malformed: "@ + e@,
        },
        failure_text(BrokerKind::Sqlite, queue, cause) == "sqlite: failed to open '"@ + queue
            + "': "@ + cause,
        failure_text(BrokerKind::Postgres, queue, cause) == "postgres: connection failed: "@
            + cause,
        failure_text(BrokerKind::Redis, queue, cause) == "redis: connection failed: "@ + cause,
        complaint_text(name, value, cause) == name + ": invalid value "@ + value + ": "@ + cause,
        invalid_value(name, value, cause) == name + ": invalid value "@ + quoted(value) + ": "@
            + cause,
        unprojected_text(ids) == decimal(ids.len())
            + " message(s) produced no projection (projector failed): "@ + joined(ids, ", "@)
            + ". Re-run to retry — cached successes are not recomputed."@,
{
}

/// What an operator is told of where a URL came from.
pub proof fn a_notice_names_the_source(backend: Seq<char>, variable: Seq<char>, any: bool)
    ensures
        url_notice(backend, variable, true, any) == backend + ": using --queue-url/queue_url"@,
        url_notice(backend, variable, false, true) == backend + ": using $WORKLANE_URL"@,
        url_notice(backend, variable, false, false) == backend + ": using $"@ + variable,
{
}

/// A repository is named by two texts without a slash, neither empty, with a slash
/// between them, and by nothing else.
pub proof fn a_repository_is_owner_and_name(
    spec: Seq<char>,
    owner: Seq<char>,
    name: Seq<char>,
    at: int,
)
    requires
        owner.len() > 0,
        name.len() > 0,
        forall|i: int| 0 <= i < owner.len() ==> #[trigger] owner[i] != '/',
        forall|i: int| 0 <= i < name.len() ==> #[trigger] name[i] != '/',
    ensures
        repo_slash(owner + seq!['/'] + name, owner.len() as int),
        repo_slash(owner + seq!['/'] + name, at) ==> at == owner.len(),
        is_repo(owner + seq!['/'] + name),
        is_repo(spec) ==> exists|a: Seq<char>, b: Seq<char>|
            a.len() > 0 && b.len() > 0 && !a.contains('/') && !b.contains('/') && spec
                == #[trigger] (a + seq!['/'] + b),
{
    let whole = owner + seq!['/'] + name;
    let n = owner.len() as int;
    assert(whole[n] == '/');
    assert forall|i: int| 0 <= i < whole.len() && i != n implies #[trigger] whole[i] != '/' by {
        if i < n {
            assert(whole[i] == owner[i]);
        } else {
            assert(whole[i] == name[i - n - 1]);
        }
    }
    assert(repo_slash(whole, n));
    if is_repo(spec) {
        let k = choose|k: int| repo_slash(spec, k);
        let a = spec.take(k);
        let b = spec.skip(k + 1);
        assert(spec =~= a + seq!['/'] + b);
        if a.contains('/') {
            let i = choose|i: int| 0 <= i < a.len() && a[i] == '/';
            assert(spec[i] == '/');
        }
        if b.contains('/') {
            let i = choose|i: int| 0 <= i < b.len() && b[i] == '/';
            assert(spec[k + 1 + i] == '/');
        }
    }
}

proof fn lemma_not_a_number(s: Seq<char>, i: int)
    requires
        0 <= i < s.len(),
        !('0' <= s[i] <= '9'),
    ensures
        digits_number(s) is None,
    decreases s.len(),
{
    if i < s.len() - 1 {
        lemma_not_a_number(s.drop_last(), i);
    }
}

/// A numeral is read as its number, with or without a plus sign, as long as it fits;
/// an empty text and one with anything but digits behind the sign are not read.
pub proof fn numbers_are_read_exactly(n: nat, max: nat, s: Seq<char>, i: int)
    ensures
        parsed(decimal(n), max) == if n <= max {
            Some(n)
        } else {
            None
        },
        parsed(seq!['+'] + decimal(n), max) == parsed(decimal(n), max),
        parsed(Seq::empty(), max) is None,
        0 < i < s.len() && !('0' <= s[i] <= '9') ==> parsed(s, max) is None,
        s.len() > 0 && s[0] != '+' && !('0' <= s[0] <= '9') ==> parsed(s, max) is None,
        s.len() == 1 && s[0] == '+' ==> parsed(s, max) is None,
{
    a_numeral_reads_back(n);
    let numeral = decimal(n);
    assert('0' <= numeral[0]);
    assert((seq!['+'] + numeral).drop_first() =~= numeral);
    if 0 < i < s.len() && !('0' <= s[i] <= '9') {
        lemma_not_a_number(s, i);
        assert(s.drop_first()[i - 1] == s[i]);
        lemma_not_a_number(s.drop_first(), i - 1);
    }
    if s.len() > 0 && s[0] != '+' && !('0' <= s[0] <= '9') {
        lemma_not_a_number(s, 0);
    }
    if s.len() == 1 && s[0] == '+' {
        lemma_not_a_number(s, 0);
    }
}

/// A plan opens the queue's own file, or connects to the URL that is given, with the
/// schema, pool size or namespace of the settings.
pub proof fn a_plan_follows_its_settings(
    kind: BrokerKind,
    queue_db: Seq<char>,
    url_setting: Option<&str>,
    worklane_url: Option<String>,
    database_url: Option<String>,
    redis_url: Option<String>,
    settings: BrokerSettings,
    r: Result<BrokerPlan, String>,
)
    requires
        planned(
            kind,
            queue_db,
            url_setting,
            worklane_url,
            database_url,
            redis_url,
            settings,
            r,
        ),
    ensures
        kind == BrokerKind::Sqlite ==> (r matches Ok(BrokerPlan::Sqlite { path, warning }) && path@
            == queue_db && (warning is Some <==> url_setting is Some)),
        kind == BrokerKind::Postgres ==> (r is Ok <==> url_setting is Some || worklane_url is Some
            || database_url is Some),
        kind == BrokerKind::Redis ==> (r is Ok <==> url_setting is Some || worklane_url is Some
            || redis_url is Some),
        kind == BrokerKind::Postgres && r is Ok ==> (r->Ok_0 matches BrokerPlan::Postgres {
            url,
            schema,
            pool_size,
            notice,
        } && {
            &&& url_setting matches Some(given) ==> url@ == given@
            &&& url_setting is None ==> (worklane_url matches Some(given) ==> url@ == given@)
            &&& url_setting is None && worklane_url is None ==> url@ == database_url->Some_0@
            &&& settings.schema matches Some(named) ==> schema@ == named@
            &&& settings.schema is None ==> schema@ == "public"@
            &&& pool_size == settings.pool_size
        }),
        kind == BrokerKind::Redis && r is Ok ==> (r->Ok_0 matches BrokerPlan::Redis {
            url,
            namespace,
            notice,
        } && {
            &&& url_setting matches Some(given) ==> url@ == given@
            &&& url_setting is None ==> (worklane_url matches Some(given) ==> url@ == given@)
            &&& url_setting is None && worklane_url is None ==> url@ == redis_url->Some_0@
            &&& settings.namespace matches Some(named) ==> namespace@ == named@
            &&& settings.namespace is None ==> namespace@ == "worklane"@
        }),
{
}

} // verus!
