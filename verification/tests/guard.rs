use contract_conformance_guard::cdgc::CachedContract;
use contract_conformance_guard::conformance::{Action, Actions, ContractField};
use contract_conformance_guard::envelope::{
    frame, is_rpc, locate, parse_rpc, response_stream, write_back, Place,
};
use contract_conformance_guard::guard::{
    guard_body, guard_document, reject, status, RPC_CONTRACT_VIOLATION,
};
use contract_conformance_guard::json::Json;
use contract_conformance_guard::request::Ctx;

fn doc(text: &str) -> Json {
    Json::parse(text).expect("a document")
}

fn field(name: &str, ftype: &str, required: bool, sensitive: bool) -> ContractField {
    ContractField {
        name: name.to_string(),
        ftype: Some(ftype.to_string()),
        required,
        sensitive,
        term: None,
    }
}

fn contract() -> CachedContract {
    CachedContract {
        fields: vec![
            field("orderId", "string", true, false),
            field("total", "number", true, false),
            field("currency", "string", true, false),
            field("customerEmail", "string", false, true),
        ],
        name: Some("Sales Orders".to_string()),
        external_id: None,
        timestamp: 1,
    }
}

fn actions() -> Actions {
    Actions {
        unexpected: Action::Strip,
        missing_required: Action::Reject,
        type_mismatch: Action::Inform,
        sensitive: Action::Strip,
    }
}

fn ctx() -> Ctx {
    Ctx { asset_id: "DS-14".to_string(), rpc_id: Json::integer(3) }
}

fn guarded(text: &str, path: &str) -> Option<String> {
    guard_document(doc(text), false, &ctx(), &contract(), &actions(), path)
        .map(|g| g.document.to_text())
}

const LEAK: &str = r#"{"orders":[{"orderId":"SO-1","total":10.5,"currency":"USD","internalMargin":0.6,"customerEmail":"a@b.com"}]}"#;
const BROKEN: &str = r#"{"orders":[{"orderId":"SO-1","total":"NINETY"}]}"#;
const CLEAN: &str = r#"{"orders":[{"orderId":"SO-1","total":10.5,"currency":"USD"}]}"#;

fn note(status: &str, drift: &str) -> String {
    format!(
        r#""_contract":{{"assetId":"DS-14","drift":"{drift}","externalId":null,"name":"Sales Orders","source":"cdgc","status":"{status}"}}"#
    )
}

#[test]
fn a_leak_is_stripped_and_annotated() {
    assert_eq!(
        guarded(LEAK, "orders").as_deref(),
        Some(
            format!(
                r#"{{{},"orders":[{{"currency":"USD","orderId":"SO-1","total":10.5}}]}}"#,
                note("repaired", "!customerEmail,+internalMargin")
            )
            .as_str()
        )
    );
}

#[test]
fn a_broken_rest_response_is_replaced() {
    assert_eq!(
        guarded(BROKEN, "orders").as_deref(),
        Some(
            format!(
                r#"{{{},"error":{{"code":-32052,"message":"response violated the governed contract for asset DS-14 (~total,-currency)"}}}}"#,
                note("rejected", "~total,-currency")
            )
            .as_str()
        )
    );
}

#[test]
fn a_broken_rpc_response_is_an_error_of_its_request() {
    let text = format!(r#"{{"jsonrpc":"2.0","id":3,"result":{{"structuredContent":{BROKEN}}}}}"#);
    assert_eq!(
        guarded(&text, "orders").as_deref(),
        Some(
            r#"{"error":{"code":-32052,"message":"response violated the governed contract for asset DS-14 (~total,-currency)"},"id":3,"jsonrpc":"2.0"}"#
        )
    );
}

#[test]
fn rejected_data_does_not_show() {
    let other = r#"{"orders":[{"orderId":"SO-99","total":"EIGHTY"}],"more":[1,2]}"#;
    assert_eq!(guarded(BROKEN, "orders"), guarded(other, "orders"));
}

#[test]
fn a_clean_response_is_annotated_ok() {
    assert_eq!(
        guarded(CLEAN, "orders").as_deref(),
        Some(
            format!(
                r#"{{{},"orders":[{{"currency":"USD","orderId":"SO-1","total":10.5}}]}}"#,
                note("ok", "")
            )
            .as_str()
        )
    );
}

#[test]
fn an_informed_drift_keeps_the_data() {
    let text = r#"{"orderId":"SO-1","total":"x","currency":"USD"}"#;
    assert_eq!(
        guarded(text, "").as_deref(),
        Some(
            format!(
                r#"{{{},"currency":"USD","orderId":"SO-1","total":"x"}}"#,
                note("drift", "~total")
            )
            .as_str()
        )
    );
}

#[test]
fn a_logged_drift_is_reported_as_drift() {
    let text = r#"{"orderId":"SO-1","total":"x","currency":"USD"}"#;
    let a = Actions {
        unexpected: Action::Log,
        missing_required: Action::Log,
        type_mismatch: Action::Log,
        sensitive: Action::Log,
    };
    let g = guard_document(doc(text), false, &ctx(), &contract(), &a, "").expect("guarded");
    assert!(!g.decision.inform && g.decision.strip.is_empty());
    assert_eq!(g.decision.logged, vec!["TypeMismatch:total"]);
    assert_eq!(status(&g.decision), "drift");
    assert_eq!(
        g.document.to_text(),
        format!(r#"{{{},"currency":"USD","orderId":"SO-1","total":"x"}}"#, note("drift", "~total"))
    );
    let off = Actions { type_mismatch: Action::Off, ..a };
    let g = guard_document(doc(text), false, &ctx(), &contract(), &off, "").expect("guarded");
    assert_eq!(status(&g.decision), "ok");
}

#[test]
fn a_list_cannot_carry_the_annotation() {
    let text = r#"[{"orderId":"SO-1","total":1,"currency":"USD","x":1},5]"#;
    assert_eq!(
        guarded(text, "").as_deref(),
        Some(r#"[{"currency":"USD","orderId":"SO-1","total":1},5]"#)
    );
}

#[test]
fn an_earlier_annotation_is_replaced() {
    let text = r#"{"_contract":"mine","orders":[{"orderId":"SO-1","total":1,"currency":"USD"}]}"#;
    let sent = guarded(text, "orders").expect("a document");
    assert!(sent.contains(&note("ok", "")));
    assert!(!sent.contains("mine"));
}

#[test]
fn nothing_governed_passes() {
    assert_eq!(guarded(r#"{"orders":[]}"#, "orders"), None);
    assert_eq!(guarded(r#"{"orders":[1,2]}"#, "orders"), None);
    assert_eq!(guarded(r#"{"other":[{}]}"#, "orders"), None);
    assert_eq!(guarded(r#"{"jsonrpc":"2.0","id":1,"error":{"code":1}}"#, ""), None);
    assert_eq!(guarded(r#"{"jsonrpc":"2.0","id":1,"result":{"content":[]}}"#, ""), None);
    assert_eq!(guarded(r#"{"jsonrpc":"2.0","id":1,"result":7}"#, ""), None);
    let none = CachedContract::default();
    assert_eq!(guard_document(doc(LEAK), false, &ctx(), &none, &actions(), "orders"), None);
}

#[test]
fn structured_content_is_written_back_and_mirrored() {
    let text = r#"{"jsonrpc":"2.0","id":3,"meta":1,"result":{"isError":false,"structuredContent":{"orderId":"SO-1","total":1,"currency":"USD","x":9},"content":[{"type":"image"},{"type":"text","text":"old"},{"type":"text","text":"kept"}]}}"#;
    let g = guard_document(doc(text), false, &ctx(), &contract(), &actions(), "").expect("guarded");
    let payload = format!(
        r#"{{{},"currency":"USD","orderId":"SO-1","total":1}}"#,
        note("repaired", "+x")
    );
    let result = g.document.get("result").expect("a result");
    assert_eq!(result.get("structuredContent"), Some(&doc(&payload)));
    assert_eq!(g.document.get("meta"), Some(&Json::integer(1)));
    assert_eq!(g.document.get("id"), Some(&Json::integer(3)));
    assert_eq!(result.get("isError"), Some(&Json::Bool(false)));
    let content = result.get_list("content").expect("content");
    assert_eq!(content[0], doc(r#"{"type":"image"}"#));
    assert_eq!(content[1].get_text("text"), Some(&payload));
    assert_eq!(content[2], doc(r#"{"type":"text","text":"kept"}"#));
    assert_eq!(
        locate(&g.document, false),
        Some((doc(&payload), Place::Structured))
    );
}

#[test]
fn embedded_content_is_written_back_where_it_was() {
    let text = r#"{"id":3,"result":{"content":[{"type":"text","text":"prose"},{"type":"note","text":"{}"},{"type":"text","text":"{\"orderId\":\"SO-1\",\"total\":1,\"currency\":\"USD\",\"x\":9}"},{"type":"text","text":"[]"}]}}"#;
    let rpc = doc(text);
    let (found, place) = locate(&rpc, false).expect("a payload");
    assert_eq!(place, Place::Content(2));
    assert_eq!(found, doc(r#"{"orderId":"SO-1","total":1,"currency":"USD","x":9}"#));
    let g = guard_document(rpc, false, &ctx(), &contract(), &actions(), "").expect("guarded");
    let content = g.document.get("result").and_then(|r| r.get_list("content")).expect("content");
    assert_eq!(content[0], doc(r#"{"type":"text","text":"prose"}"#));
    assert_eq!(content[1], doc(r#"{"type":"note","text":"{}"}"#));
    assert_eq!(
        content[2].get_text("text"),
        Some(&format!(
            r#"{{{},"currency":"USD","orderId":"SO-1","total":1}}"#,
            note("repaired", "+x")
        ))
    );
    assert_eq!(content[3], doc(r#"{"type":"text","text":"[]"}"#));
    assert_eq!(locate(&g.document, false).map(|f| f.1), Some(Place::Content(2)));
}

#[test]
fn writing_back_needs_the_place() {
    let rpc = r#"{"id":1,"result":{"content":[{"type":"text"}]}}"#;
    assert_eq!(write_back(doc(rpc), Place::Content(0), Json::Null), doc(rpc));
    assert_eq!(write_back(doc(rpc), Place::Content(4), Json::Null), doc(rpc));
    assert_eq!(write_back(doc("{}"), Place::Structured, Json::Null), doc("{}"));
    assert_eq!(write_back(doc("{}"), Place::Rest, doc("[1]")), doc("[1]"));
    assert_eq!(
        write_back(doc(r#"{"result":{}}"#), Place::Structured, doc("[1]")),
        doc(r#"{"result":{"structuredContent":[1]}}"#)
    );
}

#[test]
fn envelopes_are_told_from_payloads() {
    assert!(is_rpc(&doc("{}"), true));
    assert!(is_rpc(&doc(r#"{"jsonrpc":null}"#), false));
    assert!(is_rpc(&doc(r#"{"result":1,"id":2}"#), false));
    assert!(!is_rpc(&doc(r#"{"result":1}"#), false));
    assert!(!is_rpc(&doc(r#"{"id":1}"#), false));
    assert!(!is_rpc(&doc("[1]"), false));
}

#[test]
fn the_content_type_tells_streams_and_documents() {
    assert_eq!(response_stream("text/event-stream; charset=utf-8"), Some(true));
    assert_eq!(response_stream("application/json"), Some(false));
    assert_eq!(response_stream("application/problem+json"), Some(false));
    assert_eq!(response_stream("text/html"), None);
    assert_eq!(response_stream(""), None);
}

#[test]
fn an_event_is_read_and_framed() {
    let stream = "event: message\r\nid: 1\r\n  data:  nothing\r\ndata: {\"a\":1}\r\ndata: {\"b\":2}\r\n\r\n";
    assert_eq!(parse_rpc(stream, true), Some(doc("{\"a\":1}")));
    assert_eq!(parse_rpc("event: ping\n\n", true), None);
    assert_eq!(parse_rpc("{\"a\":1}", true), None);
    assert_eq!(parse_rpc("data: {\"a\":1}", false), None);
    assert_eq!(frame(&doc("{\"a\":1}"), true), "event: message\ndata: {\"a\":1}\n\n");
    assert_eq!(frame(&doc("{ \"a\" : 1 }"), false), "{\"a\":1}");
    let j = doc("{\"a\":\"line\\nbreak\"}");
    assert_eq!(parse_rpc(&frame(&j, true), true), Some(doc("{\"a\":\"line\\nbreak\"}")));
    assert_eq!(parse_rpc(&frame(&j, false), false), Some(j));
}

#[test]
fn a_body_is_guarded_as_bytes() {
    let (body, d) =
        guard_body(LEAK.as_bytes().to_vec(), false, &ctx(), &contract(), &actions(), "orders")
            .expect("guarded");
    assert_eq!(Some(body), guarded(LEAK, "orders"));
    assert_eq!(d.summary, "!customerEmail,+internalMargin");
    assert_eq!(status(&d), "repaired");
    let event =
        format!("data: {{\"id\":3,\"result\":{{\"structuredContent\":{BROKEN}}}}}\n\n");
    let (body, d) =
        guard_body(event.into_bytes(), true, &ctx(), &contract(), &actions(), "orders")
            .expect("guarded");
    assert!(d.reject);
    assert!(body.starts_with("event: message\ndata: {\"error\":{\"code\":-32052,"));
    assert!(body.ends_with("\"id\":3,\"jsonrpc\":\"2.0\"}\n\n"));
}

#[test]
fn a_body_that_is_no_document_passes() {
    for body in [&b"\xff\xfe"[..], b"", b"not json", b"{\"orders\":"] {
        let sent = guard_body(body.to_vec(), false, &ctx(), &contract(), &actions(), "orders");
        assert_eq!(sent, None);
    }
}

#[test]
fn a_required_and_sensitive_field_is_stripped_where_it_is_present() {
    let cc = CachedContract {
        fields: vec![field("unit_cost", "string", true, true), field("sku", "string", true, false)],
        name: Some("dim_product.csv".to_string()),
        external_id: Some("x".to_string()),
        timestamp: 0,
    };
    let leak = r#"{"products":[{"sku":"SKU-1001","unit_cost":"42.50","internal_margin":"0.57"}],"count":1}"#;
    let g = guard_document(doc(leak), false, &ctx(), &cc, &actions(), "products").expect("guarded");
    assert_eq!(g.decision.summary, "!unit_cost,+internal_margin");
    assert_eq!(g.document.get("products"), Some(&doc(r#"[{"sku":"SKU-1001"}]"#)));
    assert_eq!(g.document.get("count"), Some(&Json::integer(1)));
    let broken = r#"{"products":[{"unit_cost":"42.50"}],"count":1}"#;
    let g = guard_document(doc(broken), false, &ctx(), &cc, &actions(), "products").expect("guarded");
    assert!(g.decision.reject);
    assert_eq!(g.decision.summary, "!unit_cost,-sku");
    assert_eq!(
        g.document.get("error").and_then(|e| e.get_text("message")).map(|m| m.as_str()),
        Some("response violated the governed contract for asset DS-14 (!unit_cost,-sku)")
    );
}

#[test]
fn an_error_carries_the_violation_code() {
    assert_eq!(RPC_CONTRACT_VIOLATION, -32052);
    let sent = reject(Place::Content(0), &ctx(), &contract(), &"-x".to_string());
    assert_eq!(sent.get("error").and_then(|e| e.get("code")), Some(&Json::integer(-32052)));
    assert_eq!(sent.get("result"), None);
    assert_eq!(sent.get("_contract"), None);
}
