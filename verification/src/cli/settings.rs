//! Settings: an explicit flag wins, else the configuration, else the default.

use super::broker::BrokerSettings;
use super::broker::Retention;
use crate::model::message::MessageId;
use crate::model::seqs::view_of;
use crate::model::seqs::views;
use crate::text::cat3;
use crate::text::decimal;
use crate::text::joined;
use crate::text::parsed;
use crate::text::push_decimal;
use crate::text::quoted;
use crate::text::to_quoted;
use vstd::prelude::*;

verus! {

/// The dead-letter cap unless the configuration raises it.
pub const DEFAULT_DEAD_LETTER_MAX_COUNT: u64 = 1000;

/// The routing-trace cap unless the configuration raises it.
pub const DEFAULT_TRACE_MAX_COUNT: usize = 10_000;

/// The redelivery bound unless the environment or the configuration sets it: a
/// job that keeps losing its lease is dead-lettered rather than redelivered
/// forever.
pub const DEFAULT_MAX_DELIVERIES: u32 = 10;

/// The handler timeout unless the environment or the configuration sets it.
pub const DEFAULT_HANDLER_TIMEOUT_SECS: u64 = 300;

/// How command output is rendered.
#[derive(Clone, Copy, Debug, PartialEq, Eq, Structural)]
pub enum Format {
    /// Summaries for people.
    Text,
    /// JSON for machines.
    Json,
}

/// Which projector backs the commands.
#[derive(Clone, Copy, Debug, PartialEq, Eq, Structural)]
pub enum Provider {
    /// The deterministic keyword mock.
    Mock,
    /// A local Ollama server.
    Ollama,
    /// An OpenAI-compatible backend.
    Openai,
}

impl Default for Format {
    fn default() -> (r: Self)
        ensures
            r == Format::Text,
    {
        Format::Text
    }
}

impl Default for Provider {
    fn default() -> (r: Self)
        ensures
            r == Provider::Mock,
    {
        Provider::Mock
    }
}

/// The flag, else the configuration, else the default.
pub open spec fn preferred<T>(flag: Option<T>, config: Option<T>, default: T) -> T {
    match (flag, config) {
        (Some(value), _) => value,
        (None, Some(value)) => value,
        (None, None) => default,
    }
}

/// Resolves a text setting.
pub fn resolve_str(flag: Option<String>, config: Option<String>, default: &str) -> (r: String)
    ensures
        r@ == preferred(view_of(flag), view_of(config), default@),
{
    match flag {
        Some(value) => value,
        None => match config {
            Some(value) => value,
            None => default.to_string(),
        },
    }
}

/// Resolves the path of the message log.
pub fn resolve_db(flag: Option<String>, config: Option<String>) -> (r: String)
    ensures
        r@ == preferred(view_of(flag), view_of(config), "mirrorlane.db"@),
{
    resolve_str(flag, config, "mirrorlane.db")
}

/// Resolves the provider.
pub fn resolve_provider(flag: Option<Provider>, config: Option<Provider>) -> (r: Provider)
    ensures
        r == preferred(flag, config, Provider::Mock),
{
    match flag {
        Some(value) => value,
        None => match config {
            Some(value) => value,
            None => Provider::Mock,
        },
    }
}

/// Resolves the output format.
pub fn resolve_format(flag: Option<Format>, config: Option<Format>) -> (r: Format)
    ensures
        r == preferred(flag, config, Format::Text),
{
    match flag {
        Some(value) => value,
        None => match config {
            Some(value) => value,
            None => Format::Text,
        },
    }
}

/// Resolves the strategy id.
pub fn resolve_strategy(flag: Option<String>, config: Option<String>) -> (r: String)
    ensures
        r@ == preferred(view_of(flag), view_of(config), "projection"@),
{
    resolve_str(flag, config, "projection")
}

/// Bounds for the disposable stores, all optional.
#[derive(Debug)]
pub struct RetentionConfig {
    pub dead_letter_max_count: Option<u64>,
    pub dead_letter_max_age_secs: Option<u64>,
    pub trace_max_count: Option<usize>,
}

/// An optional value, else the default.
pub open spec fn given<T>(value: Option<T>, default: T) -> T {
    match value {
        Some(v) => v,
        None => default,
    }
}

/// Resolves the dead-letter retention and the routing-trace cap: both are bounded
/// by default, and an age bound is set only where it is configured.
pub fn resolve_retention(config: Option<RetentionConfig>) -> (r: (Retention, usize))
    ensures
        match config {
            Some(c) => r == (
                Retention {
                    max_count: given(c.dead_letter_max_count, 1000),
                    max_age_secs: c.dead_letter_max_age_secs,
                },
                given(c.trace_max_count, 10_000),
            ),
            None => r == (
                Retention { max_count: 1000, max_age_secs: None },
                10_000usize,
            ),
        },
{
    match config {
        Some(c) => (
            Retention {
                max_count: match c.dead_letter_max_count {
                    Some(n) => n,
                    None => DEFAULT_DEAD_LETTER_MAX_COUNT,
                },
                max_age_secs: c.dead_letter_max_age_secs,
            },
            match c.trace_max_count {
                Some(n) => n,
                None => DEFAULT_TRACE_MAX_COUNT,
            },
        ),
        None => (
            Retention { max_count: DEFAULT_DEAD_LETTER_MAX_COUNT, max_age_secs: None },
            DEFAULT_TRACE_MAX_COUNT,
        ),
    }
}

/// The queue settings of the configuration, all optional.
#[derive(Debug)]
pub struct WorklaneConfig {
    pub queue_schema: Option<String>,
    pub queue_namespace: Option<String>,
    pub pool_size: Option<usize>,
    pub lease_secs: Option<u64>,
    pub max_deliveries: Option<u32>,
    pub handler_timeout_secs: Option<u64>,
}

impl Default for WorklaneConfig {
    fn default() -> (r: Self)
        ensures
            r.queue_schema is None,
            r.queue_namespace is None,
            r.pool_size is None,
            r.lease_secs is None,
            r.max_deliveries is None,
            r.handler_timeout_secs is None,
    {
        WorklaneConfig {
            queue_schema: None,
            queue_namespace: None,
            pool_size: None,
            lease_secs: None,
            max_deliveries: None,
            handler_timeout_secs: None,
        }
    }
}

/// The `MIRRORLANE_WORKLANE_*` variables as the environment holds them.
#[derive(Debug)]
pub struct WorklaneEnv {
    pub queue_schema: Option<String>,
    pub queue_namespace: Option<String>,
    pub pool_size: Option<String>,
    pub lease_secs: Option<String>,
    pub max_deliveries: Option<String>,
    pub handler_timeout_secs: Option<String>,
}

impl Default for WorklaneEnv {
    fn default() -> (r: Self)
        ensures
            r.queue_schema is None,
            r.queue_namespace is None,
            r.pool_size is None,
            r.lease_secs is None,
            r.max_deliveries is None,
            r.handler_timeout_secs is None,
    {
        WorklaneEnv {
            queue_schema: None,
            queue_namespace: None,
            pool_size: None,
            lease_secs: None,
            max_deliveries: None,
            handler_timeout_secs: None,
        }
    }
}

/// What `u64::from_str` says of a text it refuses.
pub uninterp spec fn u64_complaint(s: Seq<char>) -> Seq<char>;

/// `str::parse::<u64>`: digits, after an optional plus sign, that fit; the text of
/// its error is named by [`u64_complaint`].
#[verifier::external_body]
fn read_u64(s: &str) -> (r: Result<u64, String>)
    ensures
        match r {
            Ok(n) => parsed(s@, u64::MAX as nat) == Some(n as nat),
            Err(e) => parsed(s@, u64::MAX as nat) is None && e@ == u64_complaint(s@),
        },
{
    s.parse::<u64>().map_err(|e| e.to_string())
}

/// What `u32::from_str` says of a text it refuses.
pub uninterp spec fn u32_complaint(s: Seq<char>) -> Seq<char>;

/// `str::parse::<u32>`: digits, after an optional plus sign, that fit; the text of
/// its error is named by [`u32_complaint`].
#[verifier::external_body]
fn read_u32(s: &str) -> (r: Result<u32, String>)
    ensures
        match r {
            Ok(n) => parsed(s@, u32::MAX as nat) == Some(n as nat),
            Err(e) => parsed(s@, u32::MAX as nat) is None && e@ == u32_complaint(s@),
        },
{
    s.parse::<u32>().map_err(|e| e.to_string())
}

/// What `usize::from_str` says of a text it refuses.
pub uninterp spec fn usize_complaint(s: Seq<char>) -> Seq<char>;

/// `str::parse::<usize>`: digits, after an optional plus sign, that fit; the text
/// of its error is named by [`usize_complaint`].
#[verifier::external_body]
fn read_usize(s: &str) -> (r: Result<usize, String>)
    ensures
        match r {
            Ok(n) => parsed(s@, usize::MAX as nat) == Some(n as nat),
            Err(e) => parsed(s@, usize::MAX as nat) is None && e@ == usize_complaint(s@),
        },
{
    s.parse::<usize>().map_err(|e| e.to_string())
}

/// What is said of a variable whose value, shown in quotes, is not a number.
pub open spec fn complaint_text(name: Seq<char>, shown: Seq<char>, complaint: Seq<char>) -> Seq<
    char,
> {
    name + ": invalid value "@ + shown + ": "@ + complaint
}

/// What is said of a variable whose value is not a number.
pub open spec fn invalid_value(name: Seq<char>, value: Seq<char>, complaint: Seq<char>) -> Seq<char> {
    complaint_text(name, quoted(value), complaint)
}

/// Says that a variable's value, shown in quotes, is not a number.
pub fn complain(name: &str, shown: &str, complaint: &str) -> (r: String)
    ensures
        r@ == complaint_text(name@, shown@, complaint@),
{
    let mut out = cat3(name, ": invalid value ", shown);
    out.append(": ");
    out.append(complaint);
    out
}

/// A text setting: the environment wins over the configuration.
pub fn env_str_or(env: Option<String>, config: Option<String>) -> (r: Option<String>)
    ensures
        r == (if env is Some {
            env
        } else {
            config
        }),
{
    match env {
        Some(value) => Some(value),
        None => config,
    }
}

/// A numeric setting of the environment, else of the configuration; a malformed
/// one is an error, not a default.
pub fn env_u64_or(name: &str, env: Option<String>, config: Option<u64>) -> (r: Result<
    Option<u64>,
    String,
>)
    ensures
        match env {
            Some(value) => match parsed(value@, u64::MAX as nat) {
                Some(n) => r == Ok::<Option<u64>, String>(Some(n as u64)),
                None => r matches Err(e) && e@ == invalid_value(
                    name@,
                    value@,
                    u64_complaint(value@),
                ),
            },
            None => r == Ok::<Option<u64>, String>(config),
        },
{
    match env {
        Some(value) => match read_u64(value.as_str()) {
            Ok(n) => Ok(Some(n)),
            Err(e) => Err(complain(name, to_quoted(value.as_str()).as_str(), e.as_str())),
        },
        None => Ok(config),
    }
}

/// A numeric setting of the environment, else of the configuration; a malformed
/// one is an error, not a default.
pub fn env_u32_or(name: &str, env: Option<String>, config: Option<u32>) -> (r: Result<
    Option<u32>,
    String,
>)
    ensures
        match env {
            Some(value) => match parsed(value@, u32::MAX as nat) {
                Some(n) => r == Ok::<Option<u32>, String>(Some(n as u32)),
                None => r matches Err(e) && e@ == invalid_value(
                    name@,
                    value@,
                    u32_complaint(value@),
                ),
            },
            None => r == Ok::<Option<u32>, String>(config),
        },
{
    match env {
        Some(value) => match read_u32(value.as_str()) {
            Ok(n) => Ok(Some(n)),
            Err(e) => Err(complain(name, to_quoted(value.as_str()).as_str(), e.as_str())),
        },
        None => Ok(config),
    }
}

/// A numeric setting of the environment, else of the configuration; a malformed
/// one is an error, not a default.
pub fn env_usize_or(name: &str, env: Option<String>, config: Option<usize>) -> (r: Result<
    Option<usize>,
    String,
>)
    ensures
        match env {
            Some(value) => match parsed(value@, usize::MAX as nat) {
                Some(n) => r == Ok::<Option<usize>, String>(Some(n as usize)),
                None => r matches Err(e) && e@ == invalid_value(
                    name@,
                    value@,
                    usize_complaint(value@),
                ),
            },
            None => r == Ok::<Option<usize>, String>(config),
        },
{
    match env {
        Some(value) => match read_usize(value.as_str()) {
            Ok(n) => Ok(Some(n)),
            Err(e) => Err(complain(name, to_quoted(value.as_str()).as_str(), e.as_str())),
        },
        None => Ok(config),
    }
}

/// Whether a numeric variable is unset or well-formed.
pub open spec fn readable(env: Option<String>, max: nat) -> bool {
    env is Some ==> parsed(env->Some_0@, max) is Some
}

/// The number of a variable, else that of the configuration.
pub open spec fn number(env: Option<String>, max: nat, config: Option<nat>) -> Option<nat> {
    match env {
        Some(value) => parsed(value@, max),
        None => config,
    }
}

/// An optional machine integer as a number.
pub open spec fn widened_u64(n: Option<u64>) -> Option<nat> {
    match n {
        Some(v) => Some(v as nat),
        None => None,
    }
}

/// An optional machine integer as a number.
pub open spec fn widened_u32(n: Option<u32>) -> Option<nat> {
    match n {
        Some(v) => Some(v as nat),
        None => None,
    }
}

/// An optional machine integer as a number.
pub open spec fn widened_usize(n: Option<usize>) -> Option<nat> {
    match n {
        Some(v) => Some(v as nat),
        None => None,
    }
}

/// Resolves the queue settings: the environment, then the configuration, then the
/// defaults. Only redelivery has a default of its own. The first malformed number
/// is the error, in the order pool size, lease, deliveries.
pub fn resolve_broker_settings(
    retention: Retention,
    env: WorklaneEnv,
    config: Option<WorklaneConfig>,
) -> (r: Result<BrokerSettings, String>)
    ensures
        ({
            let pool = if config is Some {
                config->Some_0.pool_size
            } else {
                None
            };
            let lease = if config is Some {
                config->Some_0.lease_secs
            } else {
                None
            };
            let deliveries = if config is Some {
                config->Some_0.max_deliveries
            } else {
                None
            };
            match r {
                Ok(s) => {
                    &&& readable(env.pool_size, usize::MAX as nat)
                    &&& readable(env.lease_secs, u64::MAX as nat)
                    &&& readable(env.max_deliveries, u32::MAX as nat)
                    &&& s.retention == retention
                    &&& s.schema == if env.queue_schema is Some {
                        env.queue_schema
                    } else if config is Some {
                        config->Some_0.queue_schema
                    } else {
                        None
                    }
                    &&& s.namespace == if env.queue_namespace is Some {
                        env.queue_namespace
                    } else if config is Some {
                        config->Some_0.queue_namespace
                    } else {
                        None
                    }
                    &&& widened_usize(s.pool_size) == number(
                        env.pool_size,
                        usize::MAX as nat,
                        widened_usize(pool),
                    )
                    &&& widened_u64(s.lease_secs) == number(
                        env.lease_secs,
                        u64::MAX as nat,
                        widened_u64(lease),
                    )
                    &&& s.max_deliveries is Some
                    &&& s.max_deliveries->Some_0 == given(
                        number(env.max_deliveries, u32::MAX as nat, widened_u32(deliveries)),
                        10,
                    )
                },
                Err(e) => if !readable(env.pool_size, usize::MAX as nat) {
                    e@ == invalid_value(
                        "MIRRORLANE_WORKLANE_POOL_SIZE"@,
                        env.pool_size->Some_0@,
                        usize_complaint(env.pool_size->Some_0@),
                    )
                } else if !readable(env.lease_secs, u64::MAX as nat) {
                    e@ == invalid_value(
                        "MIRRORLANE_WORKLANE_LEASE_SECS"@,
                        env.lease_secs->Some_0@,
                        u64_complaint(env.lease_secs->Some_0@),
                    )
                } else {
                    !readable(env.max_deliveries, u32::MAX as nat) && e@ == invalid_value(
                        "MIRRORLANE_WORKLANE_MAX_DELIVERIES"@,
                        env.max_deliveries->Some_0@,
                        u32_complaint(env.max_deliveries->Some_0@),
                    )
                },
            }
        }),
{
    let wl = match config {
        Some(c) => c,
        None => WorklaneConfig::default(),
    };
    let pool_size = match env_usize_or("MIRRORLANE_WORKLANE_POOL_SIZE", env.pool_size, wl.pool_size) {
        Ok(n) => n,
        Err(e) => {
            return Err(e);
        },
    };
    let lease_secs = match env_u64_or("MIRRORLANE_WORKLANE_LEASE_SECS", env.lease_secs, wl.lease_secs) {
        Ok(n) => n,
        Err(e) => {
            return Err(e);
        },
    };
    let deliveries = match env_u32_or(
        "MIRRORLANE_WORKLANE_MAX_DELIVERIES",
        env.max_deliveries,
        wl.max_deliveries,
    ) {
        Ok(n) => n,
        Err(e) => {
            return Err(e);
        },
    };
    let max_deliveries = match deliveries {
        Some(n) => Some(n),
        None => Some(DEFAULT_MAX_DELIVERIES),
    };
    Ok(
        BrokerSettings {
            retention,
            schema: env_str_or(env.queue_schema, wl.queue_schema),
            namespace: env_str_or(env.queue_namespace, wl.queue_namespace),
            pool_size,
            lease_secs,
            max_deliveries,
        },
    )
}

/// Resolves the handler timeout in seconds: the environment, then the
/// configuration, then the default.
pub fn resolve_handler_timeout(env: Option<String>, config: Option<&WorklaneConfig>) -> (r: Result<
    u64,
    String,
>)
    ensures
        ({
            let configured = match config {
                Some(c) => c.handler_timeout_secs,
                None => None,
            };
            match r {
                Ok(secs) => readable(env, u64::MAX as nat) && secs == given(
                    number(env, u64::MAX as nat, widened_u64(configured)),
                    300,
                ),
                Err(e) => !readable(env, u64::MAX as nat) && e@ == invalid_value(
                    "MIRRORLANE_WORKLANE_HANDLER_TIMEOUT_SECS"@,
                    env->Some_0@,
                    u64_complaint(env->Some_0@),
                ),
            }
        }),
{
    let configured: Option<u64> = match config {
        Some(c) => c.handler_timeout_secs,
        None => None,
    };
    match env_u64_or("MIRRORLANE_WORKLANE_HANDLER_TIMEOUT_SECS", env, configured) {
        Ok(Some(secs)) => Ok(secs),
        Ok(None) => Ok(DEFAULT_HANDLER_TIMEOUT_SECS),
        Err(e) => Err(e),
    }
}

/// What is said of messages that produced no projection.
pub open spec fn unprojected_text(ids: Seq<Seq<char>>) -> Seq<char> {
    decimal(ids.len()) + " message(s) produced no projection (projector failed): "@ + joined(
        ids,
        ", "@,
    ) + ". Re-run to retry — cached successes are not recomputed."@
}

/// An error if any message produced no projection, so that an incomplete run is
/// not silent.
pub fn fail_if_unprojected(unprojected: &[MessageId]) -> (r: Result<(), String>)
    ensures
        match r {
            Ok(_) => unprojected@.len() == 0,
            Err(e) => unprojected@.len() > 0 && e@ == unprojected_text(views(unprojected@)),
        },
{
    if unprojected.len() == 0 {
        return Ok(());
    }
    let ghost all = views(unprojected@);
    let mut ids = String::new();
    let mut i: usize = 0;
    assert(ids@ =~= joined(all.take(0), ", "@));
    while i < unprojected.len()
        invariant
            i <= unprojected@.len(),
            all == views(unprojected@),
            ids@ == joined(all.take(i as int), ", "@),
        decreases unprojected@.len() - i,
    {
        if i > 0 {
            ids.append(", ");
        }
        ids.append(unprojected[i].0.as_str());
        proof {
            assert(all.take(i + 1).drop_last() =~= all.take(i as int));
            assert(all.take(i + 1).last() == unprojected@[i as int]@);
            assert(ids@ =~= joined(all.take(i + 1), ", "@));
        }
        i = i + 1;
    }
    assert(all.take(i as int) =~= all);
    let mut out = String::new();
    push_decimal(&mut out, unprojected.len() as u64);
    out.append(" message(s) produced no projection (projector failed): ");
    out.append(ids.as_str());
    out.append(". Re-run to retry — cached successes are not recomputed.");
    assert(out@ =~= unprojected_text(all));
    Err(out)
}

} // verus!
