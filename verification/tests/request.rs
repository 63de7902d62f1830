use contract_conformance_guard::config::Config;
use contract_conformance_guard::json::Json;
use contract_conformance_guard::request::{
    asset_id_of, context_of, is_content_method, reads_body, request_filter, schema_header, Ctx,
};

fn config() -> Config {
    Config {
        cdgc_org_username: String::new(),
        cdgc_org_password: String::new(),
        schema_id: "configured".to_string(),
        schema_id_header: None,
        records_path: None,
        on_unexpected_field: None,
        on_missing_required: None,
        on_type_mismatch: None,
        on_sensitive_field: None,
        sensitive_levels: None,
        sensitive_marker: None,
        refresh_interval_seconds: None,
        fail_open_on_cdgc_error: None,
        distributed: None,
        timeout: None,
    }
}

fn noted(asset_id: &str, rpc_id: Json) -> Option<Ctx> {
    Some(Ctx { asset_id: asset_id.to_string(), rpc_id })
}

#[test]
fn content_methods_are_a_closed_list() {
    for m in [
        "tools/call",
        "resources/read",
        "prompts/get",
        "message/send",
        "message/stream",
        "SendMessage",
        "SendStreamingMessage",
    ] {
        assert!(is_content_method(m), "{m}");
    }
    for m in ["tools/list", "initialize", "", "Tools/call", "tools/call "] {
        assert!(!is_content_method(m), "{m}");
    }
}

#[test]
fn a_header_names_another_asset() {
    let mut c = config();
    assert_eq!(schema_header(&c), "x-dp-contract-id");
    c.schema_id_header = Some("x-asset".to_string());
    assert_eq!(schema_header(&c), "x-asset");
    assert_eq!(asset_id_of(&Some(" a ".to_string()), &c.schema_id), " a ");
    assert_eq!(asset_id_of(&Some(" \t\u{a0}".to_string()), &c.schema_id), "configured");
    assert_eq!(asset_id_of(&Some(String::new()), &c.schema_id), "configured");
    assert_eq!(asset_id_of(&None, &c.schema_id), "configured");
}

#[test]
fn only_a_json_post_is_read() {
    assert!(reads_body("application/json; charset=utf-8", "POST"));
    assert!(!reads_body("application/json", "post"));
    assert!(!reads_body("application/json", "GET"));
    assert!(!reads_body("text/json", "POST"));
    assert!(!reads_body("", "POST"));
}

#[test]
fn a_call_of_a_content_method_is_noted_with_its_id() {
    let c = config();
    let sent = |body: &str| {
        request_filter(&c, &None, "application/json", "POST", body.as_bytes())
    };
    assert_eq!(
        sent(r#"{"jsonrpc":"2.0","id":"q-7","method":"tools/call"}"#),
        noted("configured", Json::text("q-7"))
    );
    assert_eq!(sent(r#"{"method":"message/send"}"#), noted("configured", Json::Null));
    assert_eq!(sent(r#"{"id":1,"method":"tools/list"}"#), None);
    assert_eq!(sent(r#"{"id":1,"method":5}"#), noted("configured", Json::Null));
    assert_eq!(sent(r#"{"id":1}"#), noted("configured", Json::Null));
    assert_eq!(sent("[1]"), noted("configured", Json::Null));
    assert_eq!(sent("no json"), noted("configured", Json::Null));
}

#[test]
fn any_other_request_is_guarded_without_an_id() {
    let c = config();
    let body = br#"{"id":1,"method":"tools/list"}"#;
    assert_eq!(
        request_filter(&c, &Some("other".to_string()), "application/json", "GET", body),
        noted("other", Json::Null)
    );
    assert_eq!(
        request_filter(&c, &None, "text/plain", "POST", body),
        noted("configured", Json::Null)
    );
    assert_eq!(context_of("a".to_string(), &None), noted("a", Json::Null));
}
