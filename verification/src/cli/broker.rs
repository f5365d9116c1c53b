//! Selecting the broker that backs the strategy-run queue.
//!
//! A connection URL may carry a password, so that only its source is reported and
//! a failure's text is redacted.

use crate::text::cat;
use crate::text::cat3;
use vstd::prelude::*;

verus! {

/// How much the dead-letter store keeps.
#[derive(Clone, Copy, Debug, PartialEq, Eq)]
pub struct Retention {
    /// The most records per lane.
    pub max_count: u64,
    /// The greatest age in seconds, if bounded.
    pub max_age_secs: Option<u64>,
}

/// Queue settings. `None` stands for the queue's own default.
#[derive(Debug)]
pub struct BrokerSettings {
    pub retention: Retention,
    pub schema: Option<String>,
    pub namespace: Option<String>,
    pub pool_size: Option<usize>,
    pub lease_secs: Option<u64>,
    pub max_deliveries: Option<u32>,
}

/// Which broker backs the queue.
#[derive(Clone, Copy, Debug, PartialEq, Eq, Structural)]
pub enum BrokerKind {
    /// A single-file queue.
    Sqlite,
    /// A Postgres queue, by URL.
    Postgres,
    /// A Redis queue, by URL.
    Redis,
}

impl Default for BrokerKind {
    fn default() -> (r: Self)
        ensures
            r == BrokerKind::Sqlite,
    {
        BrokerKind::Sqlite
    }
}

/// A credential-free form of a text.
pub uninterp spec fn redacted(s: Seq<char>) -> Seq<char>;

/// `worklane_core::redact_credentials`: the text with the user info of URLs and
/// credential query values masked, named by [`redacted`]. User info ends in an `@`
/// and a credential key in a `=`, so a text with neither comes back as it is.
#[verifier::external_body]
fn redact(s: &str) -> (r: String)
    ensures
        r@ == redacted(s@),
        !s@.contains('@') && !s@.contains('=') ==> r@ == s@,
{
    worklane_core::redact_credentials(s)
}

/// A connection URL and where it came from.
#[derive(Debug, PartialEq, Eq)]
pub struct ResolvedUrl {
    /// The URL, never to be printed.
    pub url: String,
    /// What to tell the operator of its source.
    pub notice: String,
}

/// Resolves the connection URL: the setting, then `$WORKLANE_URL`, then the
/// backend's own variable. None at all is an error.
pub fn resolve_url(
    url_setting: Option<&str>,
    worklane_url: Option<String>,
    fallback: Option<String>,
    fallback_var: &str,
    backend: &str,
) -> (r: Result<ResolvedUrl, String>)
    ensures
        match r {
            Ok(resolved) => match (url_setting, worklane_url, fallback) {
                (Some(url), _, _) => resolved.url@ == url@ && resolved.notice@ == backend@
                    + ": using --queue-url/queue_url"@,
                (None, Some(url), _) => resolved.url@ == url@ && resolved.notice@ == backend@
                    + ": using $WORKLANE_URL"@,
                (None, None, Some(url)) => resolved.url@ == url@ && resolved.notice@ == backend@
                    + ": using $"@ + fallback_var@,
                (None, None, None) => false,
            },
            Err(e) => url_setting is None && worklane_url is None && fallback is None && e@
                == "--queue-url, $WORKLANE_URL, or $"@ + fallback_var@
                + " is required for --broker "@ + backend@,
        },
{
    if let Some(url) = url_setting {
        return Ok(
            ResolvedUrl { url: url.to_string(), notice: cat(backend, ": using --queue-url/queue_url") },
        );
    }
    if let Some(url) = worklane_url {
        return Ok(ResolvedUrl { url, notice: cat(backend, ": using $WORKLANE_URL") });
    }
    if let Some(url) = fallback {
        return Ok(ResolvedUrl { url, notice: cat3(backend, ": using $", fallback_var) });
    }
    let mut out = cat3(
        "--queue-url, $WORKLANE_URL, or $",
        fallback_var,
        " is required for --broker ",
    );
    out.append(backend);
    Err(out)
}

/// What to open, and what to tell the operator.
#[derive(Debug, PartialEq, Eq)]
pub enum BrokerPlan {
    /// Open a file; a URL setting is ignored.
    Sqlite { path: String, warning: Option<String> },
    /// Connect to Postgres.
    Postgres { url: String, schema: String, pool_size: Option<usize>, notice: String },
    /// Connect to Redis.
    Redis { url: String, namespace: String, notice: String },
}

/// Whether a plan, or the refusal to make one, is that of a kind of broker. The
/// URLs are those of the setting, `$WORKLANE_URL`, `$DATABASE_URL` and `$REDIS_URL`.
pub open spec fn planned(
    kind: BrokerKind,
    queue_db: Seq<char>,
    url_setting: Option<&str>,
    worklane_url: Option<String>,
    database_url: Option<String>,
    redis_url: Option<String>,
    settings: BrokerSettings,
    r: Result<BrokerPlan, String>,
) -> bool {
    match kind {
        BrokerKind::Sqlite => r matches Ok(BrokerPlan::Sqlite { path, warning }) && path@
            == queue_db && match warning {
            Some(text) => url_setting is Some && text@
                == "sqlite: ignoring --queue-url (the sqlite broker uses --queue-db)"@,
            None => url_setting is None,
        },
        BrokerKind::Postgres => match r {
            Ok(BrokerPlan::Postgres { url, schema, pool_size, notice }) => {
                &&& url@ == given_url(url_setting, worklane_url, database_url)->Some_0
                &&& given_url(url_setting, worklane_url, database_url) is Some
                &&& notice@ == url_notice(
                    "postgres"@,
                    "DATABASE_URL"@,
                    url_setting is Some,
                    worklane_url is Some,
                )
                &&& schema@ == match settings.schema {
                    Some(s) => s@,
                    None => "public"@,
                }
                &&& pool_size == settings.pool_size
            },
            Ok(_) => false,
            Err(e) => given_url(url_setting, worklane_url, database_url) is None && e@
                == "--queue-url, $WORKLANE_URL, or $"@ + "DATABASE_URL"@
                + " is required for --broker "@ + "postgres"@,
        },
        BrokerKind::Redis => match r {
            Ok(BrokerPlan::Redis { url, namespace, notice }) => {
                &&& url@ == given_url(url_setting, worklane_url, redis_url)->Some_0
                &&& given_url(url_setting, worklane_url, redis_url) is Some
                &&& notice@ == url_notice(
                    "redis"@,
                    "REDIS_URL"@,
                    url_setting is Some,
                    worklane_url is Some,
                )
                &&& namespace@ == match settings.namespace {
                    Some(s) => s@,
                    None => "worklane"@,
                }
            },
            Ok(_) => false,
            Err(e) => given_url(url_setting, worklane_url, redis_url) is None && e@
                == "--queue-url, $WORKLANE_URL, or $"@ + "REDIS_URL"@
                + " is required for --broker "@ + "redis"@,
        },
    }
}

/// The connection that a kind of broker asks for. `$WORKLANE_URL`,
/// `$DATABASE_URL` and `$REDIS_URL` are handed in.
pub fn plan(
    kind: BrokerKind,
    queue_db: &str,
    url_setting: Option<&str>,
    worklane_url: Option<String>,
    database_url: Option<String>,
    redis_url: Option<String>,
    settings: &BrokerSettings,
) -> (r: Result<BrokerPlan, String>)
    ensures
        planned(
            kind,
            queue_db@,
            url_setting,
            worklane_url,
            database_url,
            redis_url,
            *settings,
            r,
        ),
{
    match kind {
        BrokerKind::Sqlite => {
            let warning = if url_setting.is_some() {
                Some(
                    "sqlite: ignoring --queue-url (the sqlite broker uses --queue-db)".to_string(),
                )
            } else {
                None
            };
            Ok(BrokerPlan::Sqlite { path: queue_db.to_string(), warning })
        },
        BrokerKind::Postgres => {
            match resolve_url(url_setting, worklane_url, database_url, "DATABASE_URL", "postgres") {
                Ok(resolved) => Ok(
                    BrokerPlan::Postgres {
                        url: resolved.url,
                        schema: text_or(&settings.schema, "public"),
                        pool_size: settings.pool_size,
                        notice: resolved.notice,
                    },
                ),
                Err(e) => Err(e),
            }
        },
        BrokerKind::Redis => {
            match resolve_url(url_setting, worklane_url, redis_url, "REDIS_URL", "redis") {
                Ok(resolved) => Ok(
                    BrokerPlan::Redis {
                        url: resolved.url,
                        namespace: text_or(&settings.namespace, "worklane"),
                        notice: resolved.notice,
                    },
                ),
                Err(e) => Err(e),
            }
        },
    }
}

/// What a broker of any kind is opened with.
#[derive(Debug, PartialEq, Eq)]
pub struct Opening {
    /// The connection.
    pub plan: BrokerPlan,
    /// How long dead letters are kept.
    pub retention: Retention,
    /// How long a reserved job is leased, if not for the broker's default.
    pub lease_secs: Option<u64>,
    /// How often a job is delivered at most, if it is bounded.
    pub max_deliveries: Option<u32>,
}

/// What a kind of broker is opened with: its connection, and whatever the kind the
/// dead-letter retention, the lease and the delivery limit of the settings.
pub fn opening(
    kind: BrokerKind,
    queue_db: &str,
    url_setting: Option<&str>,
    worklane_url: Option<String>,
    database_url: Option<String>,
    redis_url: Option<String>,
    settings: &BrokerSettings,
) -> (r: Result<Opening, String>)
    ensures
        planned(
            kind,
            queue_db@,
            url_setting,
            worklane_url,
            database_url,
            redis_url,
            *settings,
            match r {
                Ok(opened) => Ok(opened.plan),
                Err(e) => Err(e),
            },
        ),
        r matches Ok(opened) ==> {
            &&& opened.retention == settings.retention
            &&& opened.lease_secs == settings.lease_secs
            &&& opened.max_deliveries == settings.max_deliveries
        },
{
    match plan(kind, queue_db, url_setting, worklane_url, database_url, redis_url, settings) {
        Ok(plan) => Ok(
            Opening {
                plan,
                retention: settings.retention,
                lease_secs: settings.lease_secs,
                max_deliveries: settings.max_deliveries,
            },
        ),
        Err(e) => Err(e),
    }
}

/// The first URL that is given.
pub open spec fn given_url(
    url_setting: Option<&str>,
    worklane_url: Option<String>,
    fallback: Option<String>,
) -> Option<Seq<char>> {
    match (url_setting, worklane_url, fallback) {
        (Some(url), _, _) => Some(url@),
        (None, Some(url), _) => Some(url@),
        (None, None, Some(url)) => Some(url@),
        (None, None, None) => None,
    }
}

/// What the operator is told of a URL's source.
pub open spec fn url_notice(
    backend: Seq<char>,
    fallback_var: Seq<char>,
    from_setting: bool,
    from_worklane: bool,
) -> Seq<char> {
    if from_setting {
        backend + ": using --queue-url/queue_url"@
    } else if from_worklane {
        backend + ": using $WORKLANE_URL"@
    } else {
        backend + ": using $"@ + fallback_var
    }
}

/// An optional text, else the default.
fn text_or(value: &Option<String>, default: &str) -> (r: String)
    ensures
        r@ == match *value {
            Some(s) => s@,
            None => default@,
        },
{
    match value {
        Some(s) => s.clone(),
        None => default.to_string(),
    }
}

/// What is said of a broker that could not be opened or reached.
pub open spec fn failure_text(kind: BrokerKind, queue_db: Seq<char>, cause: Seq<char>) -> Seq<char> {
    match kind {
        BrokerKind::Sqlite => "sqlite: failed to open '"@ + queue_db + "': "@ + cause,
        BrokerKind::Postgres => "postgres: connection failed: "@ + cause,
        BrokerKind::Redis => "redis: connection failed: "@ + cause,
    }
}

/// Says that a broker could not be opened or reached, for a cause that may be shown.
pub fn failure(kind: BrokerKind, queue_db: &str, cause: &str) -> (r: String)
    ensures
        r@ == failure_text(kind, queue_db@, cause@),
{
    match kind {
        BrokerKind::Sqlite => {
            let mut out = cat3("sqlite: failed to open '", queue_db, "': ");
            out.append(cause);
            out
        },
        BrokerKind::Postgres => cat("postgres: connection failed: ", cause),
        BrokerKind::Redis => cat("redis: connection failed: ", cause),
    }
}

/// Says that a broker could not be opened or reached; the cause of a networked one
/// is redacted.
pub fn connection_failure(kind: BrokerKind, queue_db: &str, cause: &str) -> (r: String)
    ensures
        r@ == failure_text(
            kind,
            queue_db@,
            match kind {
                BrokerKind::Sqlite => cause@,
                BrokerKind::Postgres | BrokerKind::Redis => redacted(cause@),
            },
        ),
        !cause@.contains('@') && !cause@.contains('=') ==> r@ == failure_text(
            kind,
            queue_db@,
            cause@,
        ),
{
    match kind {
        BrokerKind::Sqlite => failure(kind, queue_db, cause),
        BrokerKind::Postgres | BrokerKind::Redis => failure(kind, queue_db, redact(cause).as_str()),
    }
}

} // verus!
