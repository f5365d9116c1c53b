//! The commands, over the ports.

use super::settings::Provider;
use crate::double::Double;
use crate::github::consumer::draft_for;
use crate::github::consumer::projection_draft;
use crate::github::consumer::GitHubDraft;
use crate::github::consumer::GitHubDraftView;
use crate::github::model::Repo;
use crate::github::model::RepoView;
use crate::github::rest::comments_address;
use crate::github::rest::issues_address;
use crate::github::rest::repo_items;
use crate::github::rest::CommentRecord;
use crate::github::rest::GitHubFetchError;
use crate::github::rest::IssueRecord;
use crate::github::rest::RestGitHubSource;
use crate::github::source::appended_all;
use crate::github::source::ingest_items;
use crate::github::source::item_messages;
use crate::llm::ollama::OllamaClient;
use crate::llm::openai::OpenAiClient;
use crate::llm::openai::OpenAiClientView;
use crate::llm::LlmProjector;
use crate::model::alike::Alike;
use crate::model::derivation::ConversationDerivation;
use crate::model::derivation::ConversationDerivationView;
use crate::model::derivation::DerivedOutputCache;
use crate::model::derivation::InMemoryDerivedOutputCache;
use crate::model::message::ConversationId;
use crate::model::message::MessageEnvelope;
use crate::model::message::MessageEnvelopeView;
use crate::model::message::MessageId;
use crate::model::message_log::appended;
use crate::model::message_log::conversations_of;
use crate::model::message_log::message_with;
use crate::model::message_log::messages_of;
use crate::model::message_log::MessageStore;
use crate::model::projection::Projection;
use crate::model::projection::ProjectionView;
use crate::model::projector::Projector;
use crate::model::projector::Router;
use crate::model::routing::ConsumerKind;
use crate::model::routing::RoutingDecision;
use crate::model::routing::RoutingDecisionView;
use crate::model::routing::RoutingHint;
use crate::model::routing::RoutingHintView;
use crate::model::routing::RoutingRule;
use crate::model::routing::RoutingTrace;
use crate::model::scope::Scope;
use crate::model::scope::ScopeView;
use crate::model::seqs::lookup;
use crate::model::seqs::view_of;
use crate::model::seqs::views;
use crate::model::skill::SessionDevelopers;
use crate::model::skill::SessionDevelopersView;
use crate::model::store::ProjectionStore;
use crate::model::store::RoutingTraceStore;
use crate::model::warmup::WarmupDocument;
use crate::model::warmup::WarmupDocumentView;
use crate::provider::developer::SkillDeveloperSnapshotter;
use crate::provider::hint::SkillRoutingHinter;
use crate::provider::mock::MockProjector;
use crate::provider::routing::default_rule_set;
use crate::provider::routing::DEFAULT_ESCALATION_THRESHOLD;
use crate::provider::routing::RuleRouter;
use crate::provider::routing::RuleRouterView;
use crate::provider::scope::MockScopeProjector;
use crate::provider::skill::MessageSkillBuilder;
use crate::provider::warmup::MockWarmupBuilder;
use crate::runtime::step::StepVersion;
use crate::text::cat3;
use crate::text::chars_of;
use crate::text::decimal;
use crate::text::push_decimal;
use crate::text::quoted;
use crate::text::same;
use crate::text::text_of;
use crate::text::to_quoted;
use crate::worker::derived::cache_entry;
use crate::worker::derived::content_hash_of;
use crate::worker::derived::derivation_for;
use crate::worker::derived::derivation_in;
use crate::worker::derived::derivations_of;
use crate::worker::derived::messages_in;
use crate::worker::derived::populate_cache;
use crate::worker::derived::populated;
use crate::worker::registry::builtin_strategies;
use crate::worker::registry::BuiltinStrategy;
use crate::worker::registry::ReplayStrategy;
use crate::worker::registry::StrategyContext;
use crate::worker::registry::StrategyRegistry;
use crate::worker::registry::UnknownStrategy;
use crate::worker::replay::ReplayStores;
use crate::worker::replay::ReplayStoresView;
use crate::worker::sessions::ids_of;
use vstd::prelude::*;

verus! {

/// The schema id of every emitted [`SessionContext`].
pub const SESSION_CONTEXT_SCHEMA: &'static str = "mirrorlane.session_context/1";

/// The full context of one session.
#[derive(Debug)]
pub struct SessionContext {
    pub schema: &'static str,
    /// The derivation version that produced this output.
    pub derivation_version: String,
    pub conversation: ConversationId,
    pub warmup: WarmupDocument,
    pub scope: Option<Scope>,
    pub developers: Option<SessionDevelopers>,
    pub hints: Vec<RoutingHint>,
    pub decisions: Vec<RoutingDecision>,
    pub drafts: Vec<GitHubDraft>,
}

/// The contents of a [`SessionContext`].
pub struct SessionContextView {
    pub schema: Seq<char>,
    pub derivation_version: Seq<char>,
    pub conversation: Seq<char>,
    pub warmup: WarmupDocumentView,
    pub scope: Option<ScopeView>,
    pub developers: Option<SessionDevelopersView>,
    pub hints: Seq<RoutingHintView>,
    pub decisions: Seq<RoutingDecisionView>,
    pub drafts: Seq<GitHubDraftView>,
}

impl View for SessionContext {
    type V = SessionContextView;

    open spec fn view(&self) -> SessionContextView {
        SessionContextView {
            schema: self.schema@,
            derivation_version: self.derivation_version@,
            conversation: self.conversation@,
            warmup: self.warmup@,
            scope: view_of(self.scope),
            developers: view_of(self.developers),
            hints: views(self.hints@),
            decisions: views(self.decisions@),
            drafts: views(self.drafts@),
        }
    }
}

/// The drafts of the projections that are routed to GitHub, in order.
pub open spec fn routed_drafts<R: Router>(
    router: &R,
    projections: Seq<ProjectionView>,
) -> Seq<GitHubDraftView>
    decreases projections.len(),
{
    if projections.len() == 0 {
        Seq::empty()
    } else {
        let before = routed_drafts(router, projections.drop_last());
        let last = projections.last();
        if router.route_spec(last).0.target == ConsumerKind::GitHub {
            before.push(projection_draft(last))
        } else {
            before
        }
    }
}

/// The context of a derivation: what was derived, and the decisions and drafts
/// that its projections route to now.
pub open spec fn session_context<R: Router>(
    derivation: ConversationDerivationView,
    version: Seq<char>,
    router: &R,
) -> SessionContextView {
    SessionContextView {
        schema: "mirrorlane.session_context/1"@,
        derivation_version: version,
        conversation: derivation.conversation,
        warmup: derivation.warmup,
        scope: derivation.scope,
        developers: derivation.developers,
        hints: derivation.hints,
        decisions: derivation.projections.map_values(
            |p: ProjectionView| router.route_spec(p).0,
        ),
        drafts: routed_drafts(router, derivation.projections),
    }
}

/// Assembles the context of a derivation, routing its projections without
/// dispatching anything.
pub fn session_context_from<R: Router>(
    derivation: &ConversationDerivation,
    version: &str,
    router: &R,
) -> (r: SessionContext)
    ensures
        r@ == session_context(derivation@, version@, router),
{
    let ghost all = views(derivation.projections@);
    let mut decisions: Vec<RoutingDecision> = Vec::new();
    let mut drafts: Vec<GitHubDraft> = Vec::new();
    let mut i: usize = 0;
    assert(views(drafts@) =~= routed_drafts(router, all.take(0)));
    while i < derivation.projections.len()
        invariant
            i <= derivation.projections@.len(),
            all == views(derivation.projections@),
            decisions@.len() == i,
            forall|j: int|
                0 <= j < i ==> (#[trigger] decisions@[j])@ == router.route_spec(all[j]).0,
            views(drafts@) == routed_drafts(router, all.take(i as int)),
        decreases derivation.projections@.len() - i,
    {
        let projection = &derivation.projections[i];
        let (decision, trace) = router.route(projection);
        proof {
            assert(all[i as int] == projection@);
            assert(all.take(i + 1).drop_last() =~= all.take(i as int));
            assert(all.take(i + 1).last() == projection@);
            assert(decision@ == router.route_spec(projection@).0);
        }
        if decision.target == ConsumerKind::GitHub {
            let ghost before = views(drafts@);
            drafts.push(draft_for(projection));
            assert(views(drafts@) =~= before.push(projection_draft(projection@)));
        }
        decisions.push(decision);
        i = i + 1;
    }
    proof {
        assert(all.take(i as int) =~= all);
        assert(views(decisions@) =~= all.map_values(|p: ProjectionView| router.route_spec(p).0));
    }
    let d = derivation.clone();
    SessionContext {
        schema: SESSION_CONTEXT_SCHEMA,
        derivation_version: version.to_string(),
        conversation: d.conversation,
        warmup: d.warmup,
        scope: d.scope,
        developers: d.developers,
        hints: d.hints,
        decisions,
        drafts,
    }
}

/// Resolved settings of the Ollama provider.
#[derive(Debug)]
pub struct OllamaSettings {
    pub base_url: String,
    pub model: String,
    pub prompt_version: String,
}

impl Default for OllamaSettings {
    fn default() -> (r: Self)
        ensures
            r.base_url@ == "http://localhost:11434"@,
            r.model@ == "qwen2.5:3b-instruct"@,
            r.prompt_version@ == "v2"@,
    {
        OllamaSettings {
            base_url: crate::llm::ollama::DEFAULT_BASE_URL.to_string(),
            model: crate::llm::ollama::DEFAULT_MODEL.to_string(),
            prompt_version: crate::llm::DEFAULT_PROMPT_VERSION.to_string(),
        }
    }
}

/// Resolved settings of the OpenAI provider. The key is not among them: it comes
/// from the environment alone.
#[derive(Debug)]
pub struct OpenAiSettings {
    pub base_url: String,
    pub model: String,
    pub prompt_version: String,
}

impl Default for OpenAiSettings {
    fn default() -> (r: Self)
        ensures
            r.base_url@ == "https://api.openai.com/v1"@,
            r.model@ == "gpt-4o-mini"@,
            r.prompt_version@ == "v2"@,
    {
        OpenAiSettings {
            base_url: crate::llm::openai::DEFAULT_BASE_URL.to_string(),
            model: crate::llm::openai::DEFAULT_MODEL.to_string(),
            prompt_version: crate::llm::DEFAULT_PROMPT_VERSION.to_string(),
        }
    }
}

/// All provider settings.
#[derive(Debug)]
pub struct LlmSettings {
    pub ollama: OllamaSettings,
    pub openai: OpenAiSettings,
}

impl Default for LlmSettings {
    fn default() -> (r: Self)
        ensures
            r.ollama.base_url@ == "http://localhost:11434"@,
            r.ollama.model@ == "qwen2.5:3b-instruct"@,
            r.ollama.prompt_version@ == "v2"@,
            r.openai.base_url@ == "https://api.openai.com/v1"@,
            r.openai.model@ == "gpt-4o-mini"@,
            r.openai.prompt_version@ == "v2"@,
    {
        LlmSettings { ollama: OllamaSettings::default(), openai: OpenAiSettings::default() }
    }
}

/// The projector that a provider asks for.
pub enum SelectedProjector {
    /// The mock, used as it is.
    Mock(MockProjector),
    /// A model behind Ollama, to be wrapped in a cache.
    Ollama(LlmProjector<OllamaClient>),
    /// A model behind an OpenAI-compatible endpoint, to be wrapped in a cache.
    Openai(LlmProjector<OpenAiClient>),
}

/// Selects the projector for a provider. The key of the OpenAI provider is handed
/// in.
pub fn select_projector(provider: Provider, llm: &LlmSettings, api_key: Option<String>) -> (r:
    SelectedProjector)
    ensures
        match provider {
            Provider::Mock => r is Mock,
            Provider::Ollama => r matches SelectedProjector::Ollama(p) && p.client_spec()@
                == llm.ollama.base_url@ && p.model_spec() == llm.ollama.model@
                && p.prompt_version_spec() == llm.ollama.prompt_version@,
            Provider::Openai => r matches SelectedProjector::Openai(p) && p.client_spec()@ == (
            OpenAiClientView { base_url: llm.openai.base_url@, api_key: view_of(api_key) })
                && p.model_spec() == llm.openai.model@ && p.prompt_version_spec()
                == llm.openai.prompt_version@,
        },
{
    match provider {
        Provider::Mock => SelectedProjector::Mock(MockProjector::new()),
        Provider::Ollama => SelectedProjector::Ollama(
            LlmProjector::new(
                OllamaClient::new(llm.ollama.base_url.as_str()),
                llm.ollama.model.as_str(),
                llm.ollama.prompt_version.as_str(),
            ),
        ),
        Provider::Openai => SelectedProjector::Openai(
            LlmProjector::new(
                OpenAiClient::new(llm.openai.base_url.as_str(), api_key),
                llm.openai.model.as_str(),
                llm.openai.prompt_version.as_str(),
            ),
        ),
    }
}

/// The ports that go with a message projector: every other one is deterministic
/// and fixed.
pub fn strategy_context<P: Projector>(projector: P) -> (r: StrategyContext<
    P,
    MockScopeProjector,
    MockWarmupBuilder,
    MessageSkillBuilder,
    SkillRoutingHinter,
    SkillDeveloperSnapshotter,
>)
    ensures
        r.projector == projector,
{
    StrategyContext::new(
        projector,
        MockScopeProjector::new(),
        MockWarmupBuilder::new(),
        MessageSkillBuilder::new(),
        SkillRoutingHinter::new(),
        SkillDeveloperSnapshotter::new(),
    )
}

/// Resolves a strategy id; an unregistered one is an error.
pub fn build_strategy(id: &str) -> (r: Result<BuiltinStrategy, UnknownStrategy>)
    ensures
        match r {
            Ok(strategy) => builtin_strategies().contains_key(id@) && strategy
                == builtin_strategies()[id@],
            Err(unknown) => !builtin_strategies().contains_key(id@) && unknown@ == id@,
        },
{
    match StrategyRegistry::with_builtins().build(id) {
        Ok(strategy) => Ok(*strategy),
        Err(unknown) => Err(unknown),
    }
}

/// A routing rule set from configuration, every part optional.
#[derive(Debug)]
pub struct RoutingConfig {
    pub rules: Vec<RoutingRule>,
    pub escalation_threshold: Option<Double>,
    pub default_target: Option<ConsumerKind>,
}

/// Builds the router: from the configuration where there is one, else with the
/// default rule set.
pub fn build_router(config: Option<RoutingConfig>) -> (r: RuleRouter)
    ensures
        match config {
            Some(c) => r@ == (RuleRouterView {
                rules: c.rules@,
                escalation_threshold: match c.escalation_threshold {
                    Some(t) => t,
                    None => Double { bits: 0x3FE3_3333_3333_3333 },
                },
                default_target: match c.default_target {
                    Some(t) => t,
                    None => ConsumerKind::Human,
                },
            }),
            None => r@ == (RuleRouterView {
                rules: default_rule_set(),
                escalation_threshold: Double { bits: 0x3FE3_3333_3333_3333 },
                default_target: ConsumerKind::Human,
            }),
        },
{
    match config {
        Some(c) => {
            let threshold = match c.escalation_threshold {
                Some(t) => t,
                None => Double::from_bits(DEFAULT_ESCALATION_THRESHOLD),
            };
            let target = match c.default_target {
                Some(t) => t,
                None => ConsumerKind::Human,
            };
            RuleRouter::with_rules(c.rules, threshold, target)
        },
        None => RuleRouter::new(),
    }
}

/// Appends a message to the log and returns its id.
pub fn ingest<M: MessageStore>(store: &mut M, message: MessageEnvelope) -> (r: MessageId)
    ensures
        final(store).log() == appended(old(store).log(), message@),
        r@ == message@.id,
{
    let id = message.id.clone();
    store.append(message);
    id
}

/// The place of the only slash, if it parts two texts that are not empty.
pub open spec fn repo_slash(spec: Seq<char>, at: int) -> bool {
    &&& 0 < at < spec.len() - 1
    &&& spec[at] == '/'
    &&& forall|i: int| 0 <= i < spec.len() && i != at ==> #[trigger] spec[i] != '/'
}

/// Whether a text is `owner/name`.
pub open spec fn is_repo(spec: Seq<char>) -> bool {
    exists|at: int| repo_slash(spec, at)
}

/// Parses `owner/name`, two parts that are not empty.
pub fn parse_repo(spec: &str) -> (r: Result<Repo, String>)
    ensures
        match r {
            Ok(repo) => exists|at: int| #[trigger]
                repo_slash(spec@, at) && repo@ == (RepoView {
                    owner: spec@.take(at),
                    name: spec@.skip(at + 1),
                }),
            Err(e) => !is_repo(spec@) && e@ == "invalid --repo "@ + quoted(spec@)
                + "; expected owner/name"@,
        },
{
    let chars = chars_of(spec);
    let mut at: usize = 0;
    while at < chars.len() && chars[at] != '/'
        invariant
            at <= chars@.len(),
            chars@ == spec@,
            forall|i: int| 0 <= i < at ==> #[trigger] spec@[i] != '/',
        decreases chars@.len() - at,
    {
        at = at + 1;
    }
    let mut single = at > 0 && at < chars.len() && at + 1 < chars.len();
    let mut next: usize = at;
    if at < chars.len() {
        next = at + 1;
    }
    let ghost shape = 0 < at < spec@.len() - 1;
    while next < chars.len()
        invariant
            at <= chars@.len(),
            chars@ == spec@,
            next <= chars@.len(),
            at < chars@.len() ==> at < next && spec@[at as int] == '/',
            at == chars@.len() ==> next == at,
            forall|i: int| 0 <= i < at ==> #[trigger] spec@[i] != '/',
            shape == (0 < at < spec@.len() - 1),
            single == (shape && forall|i: int| at < i < next ==> #[trigger] spec@[i] != '/'),
        decreases chars@.len() - next,
    {
        if chars[next] == '/' {
            single = false;
        }
        next = next + 1;
    }
    if single {
        let owner = text_of(&chars, 0, at);
        let name = text_of(&chars, at + 1, chars.len());
        proof {
            assert(repo_slash(spec@, at as int));
            assert(owner@ =~= spec@.take(at as int));
            assert(name@ =~= spec@.skip(at + 1));
        }
        Ok(Repo { owner, name })
    } else {
        proof {
            if is_repo(spec@) {
                let k = choose|k: int| repo_slash(spec@, k);
                if k < at {
                    assert(spec@[k] != '/');
                } else if at < k {
                    assert(spec@[at as int] != '/');
                }
            }
        }
        Err(
            cat3(
                "invalid --repo ",
                to_quoted(spec).as_str(),
                "; expected owner/name",
            ),
        )
    }
}

/// Why a repository was not ingested.
#[derive(Debug, PartialEq, Eq)]
pub enum IngestError {
    /// The repository's name was not `owner/name`.
    Repo(String),
    /// The API could not be read.
    Fetch(GitHubFetchError),
}

impl IngestError {
    /// The error as shown to a user.
    pub fn message(&self) -> (r: String)
        ensures
            match *self {
                IngestError::Repo(e) => r@ == e@,
                IngestError::Fetch(e) => r@ == crate::github::rest::fetch_error_text(e),
            },
    {
        match self {
            IngestError::Repo(e) => e.clone(),
            IngestError::Fetch(e) => e.message(),
        }
    }
}

/// The next request for the items of the repository with the given name, given the
/// answer on its issues if there is one. Nothing is requested for a bad name or
/// after a failure.
pub fn github_request(
    source: &RestGitHubSource,
    repo: &str,
    issues: Option<&Result<Vec<IssueRecord>, GitHubFetchError>>,
) -> (r: Result<Option<String>, IngestError>)
    ensures
        match r {
            Ok(request) => exists|at: int| #[trigger]
                repo_slash(repo@, at) && ({
                    let named = RepoView { owner: repo@.take(at), name: repo@.skip(at + 1) };
                    match issues {
                        None => request matches Some(url) && url@ == issues_address(
                            source@.base_url,
                            named,
                        ),
                        Some(Ok(_)) => request matches Some(url) && url@ == comments_address(
                            source@.base_url,
                            named,
                        ),
                        Some(Err(_)) => request is None,
                    }
                }),
            Err(IngestError::Repo(e)) => !is_repo(repo@) && e@ == "invalid --repo "@ + quoted(repo@)
                + "; expected owner/name"@,
            Err(IngestError::Fetch(_)) => false,
        },
{
    match parse_repo(repo) {
        Ok(named) => Ok(source.next_request(&named, issues)),
        Err(e) => Err(IngestError::Repo(e)),
    }
}

/// Appends a repository's items to the log, from the two answers of the API, and
/// returns their ids. On a bad repository name or a failed answer nothing is
/// ingested.
pub fn github_ingest_rest<M: MessageStore>(
    store: &mut M,
    source: &RestGitHubSource,
    repo: &str,
    issues: Result<Vec<IssueRecord>, GitHubFetchError>,
    comments: Result<Vec<CommentRecord>, GitHubFetchError>,
) -> (r: Result<Vec<MessageId>, IngestError>)
    ensures
        match r {
            Ok(ids) => exists|at: int| #[trigger]
                repo_slash(repo@, at) && issues is Ok && comments is Ok && ({
                    let messages = item_messages(
                        repo_items(
                            RepoView { owner: repo@.take(at), name: repo@.skip(at + 1) },
                            views(issues->Ok_0@),
                            views(comments->Ok_0@),
                        ),
                    );
                    &&& final(store).log() == appended_all(old(store).log(), messages)
                    &&& views(ids@) == ids_of(messages)
                }),
            Err(IngestError::Repo(e)) => !is_repo(repo@) && *final(store) == *old(store) && e@
                == "invalid --repo "@ + quoted(repo@) + "; expected owner/name"@,
            Err(IngestError::Fetch(e)) => is_repo(repo@) && *final(store) == *old(store) && match (
                issues,
                comments,
            ) {
                (Err(first), _) => e == first,
                (Ok(_), Err(second)) => e == second,
                (Ok(_), Ok(_)) => false,
            },
        },
{
    let parsed = match parse_repo(repo) {
        Ok(parsed) => parsed,
        Err(e) => {
            return Err(IngestError::Repo(e));
        },
    };
    match source.try_fetch(&parsed, issues, comments) {
        Ok(items) => {
            let ids = ingest_items(items.as_slice(), store);
            proof {
                let messages = item_messages(views(items@));
                assert(messages.map_values(|m: MessageEnvelopeView| m.id) =~= ids_of(messages));
            }
            Ok(ids)
        },
        Err(e) => Err(IngestError::Fetch(e)),
    }
}

/// The messages without a stored projection, in order.
pub open spec fn missing(
    projections: Map<Seq<char>, ProjectionView>,
    ids: Seq<Seq<char>>,
) -> Seq<Seq<char>>
    decreases ids.len(),
{
    if ids.len() == 0 {
        Seq::empty()
    } else {
        let before = missing(projections, ids.drop_last());
        if projections.contains_key(ids.last()) {
            before
        } else {
            before.push(ids.last())
        }
    }
}

/// The given messages that produced no projection. Some means that the derived
/// context is incomplete.
pub fn unprojected(stores: &ReplayStores, ids: Vec<MessageId>) -> (r: Vec<MessageId>)
    ensures
        views(r@) == missing(stores@.projections, views(ids@)),
{
    let ghost all = views(ids@);
    let mut out: Vec<MessageId> = Vec::new();
    let mut i: usize = 0;
    assert(views(out@) =~= missing(stores@.projections, all.take(0)));
    while i < ids.len()
        invariant
            i <= ids@.len(),
            all == views(ids@),
            views(out@) == missing(stores@.projections, all.take(i as int)),
        decreases ids@.len() - i,
    {
        proof {
            assert(all.take(i + 1).drop_last() =~= all.take(i as int));
            assert(all.take(i + 1).last() == ids@[i as int]@);
        }
        if stores.projections.get(&ids[i]).is_none() {
            let ghost before = views(out@);
            out.push(ids[i].clone());
            assert(views(out@) =~= before.push(ids@[i as int]@));
        }
        i = i + 1;
    }
    assert(all.take(i as int) =~= all);
    out
}

/// The ids that no projection is about, in order.
pub open spec fn unmentioned(ids: Seq<Seq<char>>, projections: Seq<ProjectionView>) -> Seq<Seq<char>>
    decreases ids.len(),
{
    if ids.len() == 0 {
        Seq::empty()
    } else {
        let before = unmentioned(ids.drop_last(), projections);
        if exists|i: int|
            0 <= i < projections.len() && (#[trigger] projections[i]).message_id == ids.last() {
            before
        } else {
            before.push(ids.last())
        }
    }
}

/// Whether some projection is about a message.
fn mentions(projections: &Vec<Projection>, id: &MessageId) -> (r: bool)
    ensures
        r == exists|i: int|
            0 <= i < projections@.len() && (#[trigger] views(projections@)[i]).message_id == id@,
{
    let mut i: usize = 0;
    while i < projections.len()
        invariant
            i <= projections@.len(),
            forall|j: int|
                0 <= j < i ==> (#[trigger] views(projections@)[j]).message_id != id@,
        decreases projections@.len() - i,
    {
        assert(views(projections@)[i as int] == projections@[i as int]@);
        if projections[i].message_id.0 == id.0 {
            return true;
        }
        i = i + 1;
    }
    false
}

/// The ids that no projection is about.
fn pick_unmentioned(ids: Vec<MessageId>, projections: &Vec<Projection>) -> (r: Vec<MessageId>)
    ensures
        views(r@) == unmentioned(views(ids@), views(projections@)),
{
    let ghost all = views(ids@);
    let ghost known = views(projections@);
    let mut out: Vec<MessageId> = Vec::new();
    let mut i: usize = 0;
    assert(views(out@) =~= unmentioned(all.take(0), known));
    while i < ids.len()
        invariant
            i <= ids@.len(),
            all == views(ids@),
            known == views(projections@),
            views(out@) == unmentioned(all.take(i as int), known),
        decreases ids@.len() - i,
    {
        proof {
            assert(all.take(i + 1).drop_last() =~= all.take(i as int));
            assert(all.take(i + 1).last() == ids@[i as int]@);
        }
        if !mentions(projections, &ids[i]) {
            let ghost before = views(out@);
            out.push(ids[i].clone());
            assert(views(out@) =~= before.push(ids@[i as int]@));
        }
        i = i + 1;
    }
    assert(all.take(i as int) =~= all);
    out
}

/// The contexts of a replay, and the messages that produced no projection.
#[derive(Debug)]
pub struct ReplayOutput {
    pub contexts: Vec<SessionContext>,
    pub unprojected: Vec<MessageId>,
}

/// One conversation's context, if there is one, and its messages that produced no
/// projection.
#[derive(Debug)]
pub struct WarmupOutput {
    pub context: Option<SessionContext>,
    pub unprojected: Vec<MessageId>,
}

/// The contexts of derivations.
pub open spec fn contexts_of<R: Router>(
    derivations: Seq<ConversationDerivationView>,
    version: Seq<char>,
    router: &R,
) -> Seq<SessionContextView> {
    derivations.map_values(|d: ConversationDerivationView| session_context(d, version, router))
}

/// The ids of all messages of a log.
fn all_ids<M: MessageStore>(store: &M) -> (r: Vec<MessageId>)
    ensures
        views(r@) == ids_of(store.log()),
{
    let log = store.all();
    let mut out: Vec<MessageId> = Vec::new();
    let mut i: usize = 0;
    while i < log.len()
        invariant
            i <= log@.len(),
            out@.len() == i,
            forall|j: int| 0 <= j < i ==> (#[trigger] out@[j])@ == log@[j]@.id,
        decreases log@.len() - i,
    {
        out.push(log[i].id.clone());
        i = i + 1;
    }
    assert(views(out@) =~= ids_of(views(log@)));
    out
}

/// Replays the log and returns each conversation's context in first-seen order.
/// A replay fills the cache, so that later reads are served from it.
pub fn replay<M: MessageStore, X, S: ReplayStrategy<X>, C: DerivedOutputCache, R: Router>(
    store: &M,
    strategy: &S,
    context: &mut X,
    cache: &mut C,
    version: &StepVersion,
    router: &R,
) -> (r: ReplayOutput)
    ensures
        exists|stores: ReplayStoresView| #[trigger]
            strategy.replays_log(*old(context), store.log(), *final(context), stores) && populated(
                *old(cache),
                *final(cache),
                store.log(),
                stores,
                version@,
                conversations_of(store.log()),
            ) && views(r.contexts@) == contexts_of(
                derivations_of(store.log(), stores, conversations_of(store.log())),
                version@,
                router,
            ) && views(r.unprojected@) == missing(stores.projections, ids_of(store.log())),
{
    let stores = strategy.run(context, store);
    let derivations = populate_cache(store, &stores, cache, version);
    let mut contexts: Vec<SessionContext> = Vec::new();
    let mut i: usize = 0;
    while i < derivations.len()
        invariant
            i <= derivations@.len(),
            contexts@.len() == i,
            forall|j: int|
                0 <= j < i ==> (#[trigger] contexts@[j])@ == session_context(
                    derivations@[j]@,
                    version@,
                    router,
                ),
        decreases derivations@.len() - i,
    {
        contexts.push(session_context_from(&derivations[i], version.as_str(), router));
        i = i + 1;
    }
    proof {
        assert(views(contexts@) =~= contexts_of(views(derivations@), version@, router));
        assert(strategy.replays_log(*old(context), store.log(), *context, stores@));
    }
    let ids = all_ids(store);
    let unprojected = unprojected(&stores, ids);
    ReplayOutput { contexts, unprojected }
}

/// The context of an optional derivation.
pub open spec fn context_of<R: Router>(
    derivation: Option<ConversationDerivationView>,
    version: Seq<char>,
    router: &R,
) -> Option<SessionContextView> {
    match derivation {
        Some(d) => Some(session_context(d, version, router)),
        None => None,
    }
}

/// Returns one conversation's context: from the cache where version and content
/// match, without running the strategy; else from a replay, which fills the cache
/// for every conversation.
pub fn warmup<M: MessageStore, X, S: ReplayStrategy<X>, C: DerivedOutputCache, R: Router>(
    store: &M,
    conversation: &ConversationId,
    strategy: &S,
    context: &mut X,
    cache: &mut C,
    version: &StepVersion,
    router: &R,
) -> (r: WarmupOutput)
    ensures
        ({
            let ids = ids_of(messages_of(store.log(), conversation@));
            match lookup(
                old(cache).entries(),
                cache_entry(store.log(), version@, conversation@),
            ) {
                Some(derivation) => {
                    &&& *final(context) == *old(context)
                    &&& *final(cache) == *old(cache)
                    &&& view_of(r.context) == Some(
                        session_context(derivation, version@, router),
                    )
                    &&& views(r.unprojected@) == unmentioned(ids, derivation.projections)
                },
                None => exists|stores: ReplayStoresView| #[trigger]
                    strategy.replays_log(
                        *old(context),
                        store.log(),
                        *final(context),
                        stores,
                    ) && populated(
                        *old(cache),
                        *final(cache),
                        store.log(),
                        stores,
                        version@,
                        conversations_of(store.log()),
                    ) && view_of(r.context) == context_of(
                        derivation_in(store.log(), stores, conversation@),
                        version@,
                        router,
                    ) && views(r.unprojected@) == missing(stores.projections, ids),
            }
        }),
{
    let messages = store.messages_for(conversation);
    let content = content_hash_of(messages.as_slice());
    if let Some(derivation) = cache.get(version, conversation, content.as_str()) {
        let unprojected = pick_unmentioned(
            messages_in(store, conversation),
            &derivation.projections,
        );
        return WarmupOutput {
            context: Some(session_context_from(&derivation, version.as_str(), router)),
            unprojected,
        };
    }
    let stores = strategy.run(context, store);
    let derivations = populate_cache(store, &stores, cache, version);
    let session = match derivation_for(store, &stores, conversation) {
        Some(derivation) => Some(session_context_from(&derivation, version.as_str(), router)),
        None => None,
    };
    let unprojected = unprojected(&stores, messages_in(store, conversation));
    assert(strategy.replays_log(*old(context), store.log(), *context, stores@));
    WarmupOutput { context: session, unprojected }
}

/// One conversation's verification: whether what the cache holds still equals
/// what deriving it now gives.
#[derive(Debug, PartialEq)]
pub struct VerifyRecord {
    pub conversation: ConversationId,
    /// `verified`, `diverged` or `not_cached`.
    pub outcome: &'static str,
}

/// The contents of a [`VerifyRecord`].
pub struct VerifyRecordView {
    pub conversation: Seq<char>,
    pub outcome: Seq<char>,
}

impl View for VerifyRecord {
    type V = VerifyRecordView;

    open spec fn view(&self) -> VerifyRecordView {
        VerifyRecordView { conversation: self.conversation@, outcome: self.outcome@ }
    }
}

/// The verification of a fresh derivation against what is cached.
pub open spec fn verification(
    durable: Map<crate::runtime::frame::Triple, ConversationDerivationView>,
    log: Seq<MessageEnvelopeView>,
    version: Seq<char>,
    fresh: ConversationDerivationView,
) -> VerifyRecordView {
    VerifyRecordView {
        conversation: fresh.conversation,
        outcome: match lookup(durable, cache_entry(log, version, fresh.conversation)) {
            None => "not_cached"@,
            Some(held) => if ConversationDerivation::alike(held, fresh) {
                "verified"@
            } else {
                "diverged"@
            },
        },
    }
}

/// Derives every conversation anew and compares it with the cache, which is only
/// read.
pub fn verify<M: MessageStore, X, S: ReplayStrategy<X>, C: DerivedOutputCache>(
    store: &M,
    strategy: &S,
    context: &mut X,
    durable: &C,
    version: &StepVersion,
) -> (r: Vec<VerifyRecord>)
    ensures
        exists|stores: ReplayStoresView| #[trigger]
            strategy.replays_log(*old(context), store.log(), *final(context), stores) && views(r@)
                == derivations_of(
                store.log(),
                stores,
                conversations_of(store.log()),
            ).map_values(
                |d: ConversationDerivationView|
                    verification(durable.entries(), store.log(), version@, d),
            ),
{
    let stores = strategy.run(context, store);
    let mut scratch = InMemoryDerivedOutputCache::new();
    let derivations = populate_cache(store, &stores, &mut scratch, version);
    let ghost wanted = views(derivations@).map_values(
        |d: ConversationDerivationView| verification(durable.entries(), store.log(), version@, d),
    );
    let mut out: Vec<VerifyRecord> = Vec::new();
    let mut i: usize = 0;
    while i < derivations.len()
        invariant
            i <= derivations@.len(),
            out@.len() == i,
            wanted == views(derivations@).map_values(
                |d: ConversationDerivationView|
                    verification(durable.entries(), store.log(), version@, d),
            ),
            forall|j: int| 0 <= j < i ==> (#[trigger] out@[j])@ == wanted[j],
        decreases derivations@.len() - i,
    {
        let fresh = &derivations[i];
        let messages = store.messages_for(&fresh.conversation);
        let content = content_hash_of(messages.as_slice());
        let outcome = match durable.get(version, &fresh.conversation, content.as_str()) {
            None => "not_cached",
            Some(held) => if held.same_as(fresh) {
                "verified"
            } else {
                "diverged"
            },
        };
        let record = VerifyRecord { conversation: fresh.conversation.clone(), outcome };
        proof {
            assert(views(derivations@)[i as int] == fresh@);
            assert(record@ == wanted[i as int]);
        }
        out.push(record);
        i = i + 1;
    }
    proof {
        assert(views(out@) =~= wanted);
        assert(strategy.replays_log(*old(context), store.log(), *context, stores@));
    }
    out
}

/// A verification's records, perhaps of one conversation only, and their count by
/// outcome.
#[derive(Debug)]
pub struct VerifySummary {
    pub records: Vec<VerifyRecord>,
    pub verified: usize,
    pub diverged: usize,
    pub not_cached: usize,
}

/// The records of the wanted conversation, or all.
pub open spec fn wanted_records(records: Seq<VerifyRecordView>, wanted: Option<Seq<char>>) -> Seq<
    VerifyRecordView,
>
    decreases records.len(),
{
    if records.len() == 0 {
        Seq::empty()
    } else {
        let before = wanted_records(records.drop_last(), wanted);
        if wanted is None || wanted->Some_0 == records.last().conversation {
            before.push(records.last())
        } else {
            before
        }
    }
}

/// How many records have an outcome.
pub open spec fn count_outcome(records: Seq<VerifyRecordView>, outcome: Seq<char>) -> nat
    decreases records.len(),
{
    if records.len() == 0 {
        0
    } else {
        count_outcome(records.drop_last(), outcome) + if records.last().outcome == outcome {
            1nat
        } else {
            0nat
        }
    }
}

/// Counts the records with an outcome.
fn count(records: &Vec<VerifyRecord>, outcome: &str) -> (r: usize)
    ensures
        r == count_outcome(views(records@), outcome@),
{
    let ghost all = views(records@);
    let mut n: usize = 0;
    let mut i: usize = 0;
    while i < records.len()
        invariant
            i <= records@.len(),
            n <= i,
            all == views(records@),
            n == count_outcome(all.take(i as int), outcome@),
        decreases records@.len() - i,
    {
        proof {
            assert(all.take(i + 1).drop_last() =~= all.take(i as int));
            assert(all.take(i + 1).last() == records@[i as int]@);
        }
        if same(records[i].outcome, outcome) {
            n = n + 1;
        }
        i = i + 1;
    }
    assert(all.take(i as int) =~= all);
    n
}

/// Limits a verification to one conversation, if asked to, and counts it by
/// outcome.
pub fn summarize(records: Vec<VerifyRecord>, wanted: Option<&ConversationId>) -> (r: VerifySummary)
    ensures
        ({
            let kept = wanted_records(
                views(records@),
                match wanted {
                    Some(c) => Some(c@),
                    None => None,
                },
            );
            &&& views(r.records@) == kept
            &&& r.verified == count_outcome(kept, "verified"@)
            &&& r.diverged == count_outcome(kept, "diverged"@)
            &&& r.not_cached == count_outcome(kept, "not_cached"@)
        }),
{
    let ghost all = views(records@);
    let ghost sought: Option<Seq<char>> = match wanted {
        Some(c) => Some(c@),
        None => None,
    };
    let mut kept: Vec<VerifyRecord> = Vec::new();
    let mut i: usize = 0;
    assert(views(kept@) =~= wanted_records(all.take(0), sought));
    while i < records.len()
        invariant
            i <= records@.len(),
            all == views(records@),
            sought == (match wanted {
                Some(c) => Some(c@),
                None => None,
            }),
            views(kept@) == wanted_records(all.take(i as int), sought),
        decreases records@.len() - i,
    {
        let record = &records[i];
        proof {
            assert(all.take(i + 1).drop_last() =~= all.take(i as int));
            assert(all.take(i + 1).last() == record@);
        }
        let keep = match wanted {
            Some(c) => c.0 == record.conversation.0,
            None => true,
        };
        if keep {
            let ghost before = views(kept@);
            kept.push(
                VerifyRecord {
                    conversation: record.conversation.clone(),
                    outcome: record.outcome,
                },
            );
            assert(views(kept@) =~= before.push(record@));
        }
        i = i + 1;
    }
    assert(all.take(i as int) =~= all);
    let verified: usize = count(&kept, "verified");
    let diverged: usize = count(&kept, "diverged");
    let not_cached: usize = count(&kept, "not_cached");
    VerifySummary { records: kept, verified, diverged, not_cached }
}

/// The error of a verification, if anything diverged.
pub fn divergence(summary: &VerifySummary) -> (r: Result<(), String>)
    ensures
        match r {
            Ok(_) => summary.diverged == 0,
            Err(e) => summary.diverged > 0 && e@ == decimal(summary.diverged as nat)
                + " conversation(s) diverged from the durable cache"@,
        },
{
    if summary.diverged == 0 {
        return Ok(());
    }
    let mut out = String::new();
    push_decimal(&mut out, summary.diverged as u64);
    out.append(" conversation(s) diverged from the durable cache");
    assert(out@ =~= decimal(summary.diverged as nat)
        + " conversation(s) diverged from the durable cache"@);
    Err(out)
}

/// What there is to see of one message.
#[derive(Debug)]
pub struct InspectContext {
    pub message: MessageEnvelope,
    pub projection: Projection,
    pub trace: Option<RoutingTrace>,
    pub decision: RoutingDecision,
}

/// Loads a message, projects and routes it, and fetches its recorded trace.
pub fn inspect<M: MessageStore, U: RoutingTraceStore, P: Projector, R: Router>(
    store: &M,
    traces: &U,
    message_id: &MessageId,
    projector: &mut P,
    router: &R,
) -> (r: Option<InspectContext>)
    ensures
        match (r, message_with(store.log(), message_id@)) {
            (Some(seen), Some(message)) => {
                &&& seen.message@ == message
                &&& old(projector).runs(&seen.message, final(projector).memory(), &seen.projection)
                &&& view_of(seen.trace) == lookup(traces.records(), message_id@)
                &&& seen.decision@ == router.route_spec(seen.projection@).0
            },
            (None, None) => *final(projector) == *old(projector),
            _ => false,
        },
{
    let message = match store.get(message_id) {
        Some(message) => message,
        None => {
            return None;
        },
    };
    let projection = projector.project(&message);
    let (decision, routed) = router.route(&projection);
    let trace = traces.get(message_id);
    Some(InspectContext { message, projection, trace, decision })
}

} // verus!
