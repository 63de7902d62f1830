//! Settings of the guard.

use crate::conformance::{action_named, Action, Actions};
use vstd::prelude::*;

verus! {

/// Seconds after which a cached contract is refreshed.
pub const DEFAULT_REFRESH_INTERVAL_SECONDS: i64 = 86_400;

/// Milliseconds that one catalog call may take.
pub const DEFAULT_TIMEOUT_MS: i64 = 5_000;

/// The least time that a contract stays in the store, in milliseconds: 30 days.
pub const CONTRACT_STORE_MIN_TTL_MS: u64 = 2_592_000_000;

/// The settings that the guard's decisions read. A setting that is not given
/// has its default.
#[derive(Debug, Clone)]
pub struct Config {
    /// Service account of the catalog.
    pub cdgc_org_username: String,
    pub cdgc_org_password: String,
    /// Schema asset whose contract is enforced.
    pub schema_id: String,
    /// Request header that names another schema asset.
    pub schema_id_header: Option<String>,
    /// `/`-path to the records in a payload; empty for the payload itself.
    pub records_path: Option<String>,
    pub on_unexpected_field: Option<String>,
    pub on_missing_required: Option<String>,
    pub on_type_mismatch: Option<String>,
    pub on_sensitive_field: Option<String>,
    /// Security levels that make a field sensitive, separated by commas.
    pub sensitive_levels: Option<String>,
    /// Words in a term's description that make a field sensitive.
    pub sensitive_marker: Option<String>,
    pub refresh_interval_seconds: Option<i64>,
    /// Whether the last known contract is served on a catalog error.
    pub fail_open_on_cdgc_error: Option<bool>,
    /// Whether the cache and the refresh lock are shared across replicas.
    pub distributed: Option<bool>,
    /// Milliseconds that one catalog call may take.
    pub timeout: Option<i64>,
}

/// A text setting, or its default.
pub open spec fn text_or(o: Option<String>, default: Seq<char>) -> Seq<char> {
    match o {
        Some(s) => s@,
        None => default,
    }
}

/// A text setting, or its default.
pub fn setting_or<'a>(o: &'a Option<String>, default: &'a str) -> (r: &'a str)
    ensures
        r@ == text_or(*o, default@),
{
    match o {
        Some(s) => s.as_str(),
        None => default,
    }
}

/// The configured actions: by default ungoverned and sensitive fields are
/// stripped, a missing required field rejects the response and a type mismatch
/// is reported.
pub open spec fn actions_view(config: Config) -> Actions {
    Actions {
        unexpected: action_named(text_or(config.on_unexpected_field, "strip"@)),
        missing_required: action_named(text_or(config.on_missing_required, "reject"@)),
        type_mismatch: action_named(text_or(config.on_type_mismatch, "inform"@)),
        sensitive: action_named(text_or(config.on_sensitive_field, "strip"@)),
    }
}

/// The configured actions.
pub fn actions_of(config: &Config) -> (r: Actions)
    ensures
        r == actions_view(*config),
{
    Actions {
        unexpected: Action::parse(setting_or(&config.on_unexpected_field, "strip")),
        missing_required: Action::parse(setting_or(&config.on_missing_required, "reject")),
        type_mismatch: Action::parse(setting_or(&config.on_type_mismatch, "inform")),
        sensitive: Action::parse(setting_or(&config.on_sensitive_field, "strip")),
    }
}

/// Seconds after which a cached contract is refreshed; never negative.
pub open spec fn refresh_interval(config: Config) -> i64 {
    let seconds = match config.refresh_interval_seconds {
        Some(s) => s,
        None => DEFAULT_REFRESH_INTERVAL_SECONDS,
    };
    if seconds < 0 {
        0
    } else {
        seconds
    }
}

/// Seconds after which a cached contract is refreshed.
pub fn refresh_interval_of(config: &Config) -> (r: i64)
    ensures
        r == refresh_interval(*config),
{
    let seconds: i64 = match config.refresh_interval_seconds {
        Some(s) => s,
        None => DEFAULT_REFRESH_INTERVAL_SECONDS,
    };
    if seconds < 0 {
        0
    } else {
        seconds
    }
}

/// How long a contract stays in the store, in milliseconds: twice the refresh
/// interval, at least 30 days, at most what `u32` can hold.
pub open spec fn store_ttl(config: Config) -> int {
    let twice = refresh_interval(config) * 2000;
    if twice < CONTRACT_STORE_MIN_TTL_MS {
        CONTRACT_STORE_MIN_TTL_MS as int
    } else if twice > u32::MAX {
        u32::MAX as int
    } else {
        twice
    }
}

/// How long a contract stays in the store, in milliseconds.
pub fn contract_store_ttl_ms(config: &Config) -> (r: u32)
    ensures
        r == store_ttl(*config),
{
    let refresh: u64 = refresh_interval_of(config) as u64;
    let mut ms: u64 = match refresh.checked_mul(2000) {
        Some(twice) => twice,
        None => u64::MAX,
    };
    if ms < CONTRACT_STORE_MIN_TTL_MS {
        ms = CONTRACT_STORE_MIN_TTL_MS;
    }
    if ms > u32::MAX as u64 {
        ms = u32::MAX as u64;
    }
    ms as u32
}

/// Milliseconds that one catalog call may take.
pub open spec fn per_call_ms(config: Config) -> i64 {
    match config.timeout {
        Some(ms) => ms,
        None => DEFAULT_TIMEOUT_MS,
    }
}

/// Milliseconds that one catalog call may take.
pub fn per_call_ms_of(config: &Config) -> (r: i64)
    ensures
        r == per_call_ms(*config),
{
    match config.timeout {
        Some(ms) => ms,
        None => DEFAULT_TIMEOUT_MS,
    }
}

/// Whether the last known contract is served on a catalog error.
pub open spec fn fails_open(config: Config) -> bool {
    match config.fail_open_on_cdgc_error {
        Some(b) => b,
        None => true,
    }
}

/// Whether the last known contract is served on a catalog error.
pub fn fails_open_of(config: &Config) -> (r: bool)
    ensures
        r == fails_open(*config),
{
    match config.fail_open_on_cdgc_error {
        Some(b) => b,
        None => true,
    }
}

} // verus!
