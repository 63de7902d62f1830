use contract_conformance_guard::config::{
    actions_of, contract_store_ttl_ms, fails_open_of, per_call_ms_of, refresh_interval_of,
    setting_or, Config,
};
use contract_conformance_guard::conformance::Action;
use contract_conformance_guard::timing::{
    elapsed_ms, milliseconds_of, next_call_timeout, now_secs, seconds_of, unix_nanos,
};
use std::time::{Duration, SystemTime};

fn config() -> Config {
    Config {
        cdgc_org_username: "user".to_string(),
        cdgc_org_password: "secret".to_string(),
        schema_id: "asset-1".to_string(),
        schema_id_header: None,
        records_path: None,
        on_unexpected_field: None,
        on_missing_required: None,
        on_type_mismatch: None,
        on_sensitive_field: None,
        sensitive_levels: None,
        sensitive_marker: None,
        refresh_interval_seconds: None,
        fail_open_on_cdgc_error: None,
        distributed: None,
        timeout: None,
    }
}

#[test]
fn defaults_are_those_of_the_reference_table() {
    let c = config();
    let a = actions_of(&c);
    assert_eq!(a.unexpected, Action::Strip);
    assert_eq!(a.missing_required, Action::Reject);
    assert_eq!(a.type_mismatch, Action::Inform);
    assert_eq!(a.sensitive, Action::Strip);
    assert_eq!(refresh_interval_of(&c), 86_400);
    assert_eq!(per_call_ms_of(&c), 5_000);
    assert!(fails_open_of(&c));
    assert_eq!(setting_or(&c.records_path, ""), "");
}

#[test]
fn given_settings_take_the_place_of_defaults() {
    let mut c = config();
    c.on_unexpected_field = Some("log".to_string());
    c.on_missing_required = Some("inform".to_string());
    c.on_type_mismatch = Some("reject".to_string());
    c.on_sensitive_field = Some("nothing".to_string());
    c.refresh_interval_seconds = Some(-5);
    c.timeout = Some(7);
    c.fail_open_on_cdgc_error = Some(false);
    c.records_path = Some("orders".to_string());
    let a = actions_of(&c);
    assert_eq!(a.unexpected, Action::Log);
    assert_eq!(a.missing_required, Action::Inform);
    assert_eq!(a.type_mismatch, Action::Reject);
    assert_eq!(a.sensitive, Action::Off);
    assert_eq!(refresh_interval_of(&c), 0);
    assert_eq!(per_call_ms_of(&c), 7);
    assert!(!fails_open_of(&c));
    assert_eq!(setting_or(&c.records_path, ""), "orders");
}

#[test]
fn a_contract_is_stored_for_twice_the_interval_within_bounds() {
    let mut c = config();
    for (seconds, ms) in [
        (None, 2_592_000_000),
        (Some(-1), 2_592_000_000),
        (Some(1_296_000), 2_592_000_000),
        (Some(1_296_001), 2_592_002_000),
        (Some(2_147_483), 4_294_966_000),
        (Some(2_147_484), u32::MAX),
        (Some(i64::MAX), u32::MAX),
    ] {
        c.refresh_interval_seconds = seconds;
        assert_eq!(contract_store_ttl_ms(&c), ms, "{seconds:?}");
    }
}

#[test]
fn a_call_has_what_is_left_of_the_budget() {
    assert_eq!(next_call_timeout(5_000, 0), Some(5_000));
    assert_eq!(next_call_timeout(5_000, 5_000), Some(5_000));
    assert_eq!(next_call_timeout(5_000, 5_001), Some(4_999));
    assert_eq!(next_call_timeout(5_000, 9_999), Some(1));
    assert_eq!(next_call_timeout(5_000, 10_000), None);
    assert_eq!(next_call_timeout(5_000, 14_000), None);
    assert_eq!(next_call_timeout(5_000, i64::MAX), None);
    assert_eq!(next_call_timeout(0, 0), Some(1));
    assert_eq!(next_call_timeout(-7, 0), Some(1));
    assert_eq!(next_call_timeout(60_000, -5), Some(10_005));
}

#[test]
fn clock_readings_are_counted_in_whole_units() {
    let t = SystemTime::UNIX_EPOCH + Duration::new(1_700_000_000, 999_999_999);
    assert_eq!(now_secs(t), 1_700_000_000);
    assert_eq!(unix_nanos(t), Some(1_700_000_000_999_999_999));
    assert_eq!(now_secs(SystemTime::UNIX_EPOCH - Duration::from_secs(1)), 0);
    assert_eq!(unix_nanos(SystemTime::UNIX_EPOCH - Duration::from_secs(1)), None);
    assert_eq!(elapsed_ms(t, t + Duration::from_micros(2_999)), 2);
    assert_eq!(elapsed_ms(t + Duration::from_secs(1), t), 0);
    assert_eq!(seconds_of(None), 0);
    assert_eq!(milliseconds_of(Some(1_999_999)), 1);
}
