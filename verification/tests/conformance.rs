use contract_conformance_guard::conformance::{
    analyze_record, apply_strip, contract_block, decide, Action, Actions, ContractField, Decision,
    Drift, DriftKind,
};
use contract_conformance_guard::field_set::FieldSet;
use contract_conformance_guard::json::{Json, Record};

fn field(name: &str, ftype: Option<&str>, required: bool, sensitive: bool) -> ContractField {
    ContractField {
        name: name.to_string(),
        ftype: ftype.map(|t| t.to_string()),
        required,
        sensitive,
        term: None,
    }
}

fn contract() -> Vec<ContractField> {
    let mut order_id = field("orderId", Some("string"), true, false);
    order_id.term = Some("Order Id".to_string());
    vec![
        order_id,
        field("total", Some("number"), true, false),
        field("currency", Some("string"), true, false),
        field("customerEmail", Some("string"), false, true),
    ]
}

fn rec(text: &str) -> Record {
    match Json::parse(text) {
        Some(Json::Object(record)) => record,
        other => panic!("no record: {other:?}"),
    }
}

fn actions() -> Actions {
    Actions {
        unexpected: Action::Strip,
        missing_required: Action::Reject,
        type_mismatch: Action::Inform,
        sensitive: Action::Strip,
    }
}

fn all(action: Action) -> Actions {
    Actions {
        unexpected: action,
        missing_required: action,
        type_mismatch: action,
        sensitive: action,
    }
}

fn drift(kind: DriftKind, name: &str) -> Drift {
    Drift { kind, field: name.to_string() }
}

#[test]
fn clean_record_no_drift() {
    let d = analyze_record(
        &rec(r#"{"orderId":"SO-1","total":10.0,"currency":"USD"}"#),
        &contract(),
    );
    assert!(d.is_empty());
}

#[test]
fn detects_unexpected_missing_sensitive() {
    let d = analyze_record(
        &rec(r#"{"orderId":"SO-1","total":10.0,"internalMargin":0.6,"customerEmail":"a@b.com"}"#),
        &contract(),
    );
    assert!(d.contains(&Drift { kind: DriftKind::Unexpected, field: "internalMargin".into() }));
    assert!(d.contains(&Drift { kind: DriftKind::MissingRequired, field: "currency".into() }));
    assert!(d.contains(&Drift { kind: DriftKind::Sensitive, field: "customerEmail".into() }));
}

#[test]
fn detects_type_mismatch() {
    let d = analyze_record(
        &rec(r#"{"orderId":"SO-1","total":"10.00","currency":"USD"}"#),
        &contract(),
    );
    assert!(d.contains(&Drift { kind: DriftKind::TypeMismatch, field: "total".into() }));
}

#[test]
fn decide_strips_and_rejects() {
    let d = analyze_record(
        &rec(r#"{"orderId":"SO-1","total":10.0,"internalMargin":0.6,"customerEmail":"a@b.com"}"#),
        &contract(),
    );
    let dec = decide(&d, &actions());
    assert!(dec.reject);
    assert!(dec.strip.contains("internalMargin"));
    assert!(dec.strip.contains("customerEmail"));
    assert!(dec.summary.contains("+internalMargin"));
    assert!(dec.summary.contains("-currency"));
    assert!(dec.summary.contains("!customerEmail"));
}

#[test]
fn decide_strip_only_when_no_reject() {
    let d = analyze_record(
        &rec(
            r#"{"orderId":"SO-1","total":10.0,"currency":"USD","internalMargin":0.6,"customerEmail":"a@b.com"}"#,
        ),
        &contract(),
    );
    let dec = decide(&d, &actions());
    assert!(!dec.reject);
    assert_eq!(
        dec.strip,
        FieldSet::of(vec!["internalMargin".to_string(), "customerEmail".to_string()])
    );
}

#[test]
fn apply_strip_mutates() {
    let mut r = rec(r#"{"orderId":"SO-1","internalMargin":0.6,"customerEmail":"a@b.com"}"#);
    let strip = FieldSet::of(vec!["internalMargin".to_string(), "customerEmail".to_string()]);
    assert!(apply_strip(&mut r, &strip));
    assert_eq!(r.keys(), vec!["orderId"]);
}

#[test]
fn off_action_ignores_drift() {
    let a = Actions {
        unexpected: Action::Off,
        missing_required: Action::Off,
        type_mismatch: Action::Off,
        sensitive: Action::Off,
    };
    let d = analyze_record(&rec(r#"{"foo":"bar"}"#), &contract());
    let dec = decide(&d, &a);
    assert!(!dec.reject && dec.strip.is_empty() && !dec.inform);
}

#[test]
fn off_reports_nothing_either() {
    let d = analyze_record(&rec(r#"{"foo":"bar"}"#), &contract());
    assert_eq!(d.len(), 4);
    let dec = decide(&d, &all(Action::Off));
    assert_eq!(dec.summary, "");
    assert!(dec.logged.is_empty());
}

#[test]
fn drifts_come_in_contract_order_then_key_order() {
    let d = analyze_record(
        &rec(r#"{"zeta":1,"alpha":2,"total":"NINETY","customerEmail":7,"orderId":null}"#),
        &contract(),
    );
    assert_eq!(
        d,
        vec![
            drift(DriftKind::TypeMismatch, "orderId"),
            drift(DriftKind::TypeMismatch, "total"),
            drift(DriftKind::MissingRequired, "currency"),
            drift(DriftKind::Sensitive, "customerEmail"),
            drift(DriftKind::TypeMismatch, "customerEmail"),
            drift(DriftKind::Unexpected, "alpha"),
            drift(DriftKind::Unexpected, "zeta"),
        ]
    );
}

#[test]
fn a_present_null_field_is_not_missing() {
    let c = vec![field("note", None, true, false)];
    assert!(analyze_record(&rec(r#"{"note":null}"#), &c).is_empty());
    assert_eq!(
        analyze_record(&rec("{}"), &c),
        vec![drift(DriftKind::MissingRequired, "note")]
    );
}

#[test]
fn every_declared_type_is_held_to() {
    let values = [
        ("null", "null"),
        ("true", "boolean"),
        ("7", "integer"),
        ("-7", "integer"),
        ("18446744073709551615", "integer"),
        ("7.5", "number"),
        ("7.0", "number"),
        ("\"7\"", "string"),
        ("[7]", "array"),
        ("{\"a\":7}", "object"),
    ];
    let types = [
        ("string", "string"),
        ("number", "number"),
        ("float", "number"),
        ("double", "number"),
        ("decimal", "number"),
        ("integer", "integer"),
        ("int", "integer"),
        ("boolean", "boolean"),
        ("bool", "boolean"),
        ("object", "object"),
        ("array", "array"),
        ("STRING", "string"),
        ("Integer", "integer"),
    ];
    for (text, is) in values {
        let record = rec(&format!("{{\"f\":{text}}}"));
        for (declared, class) in types {
            let fits = class == is || (class == "number" && is == "integer");
            let d = analyze_record(&record, &[field("f", Some(declared), false, false)]);
            assert_eq!(d.is_empty(), fits, "{text} as {declared}");
        }
        let d = analyze_record(&record, &[field("f", Some("timestamp"), false, false)]);
        assert!(d.is_empty(), "an unknown type is not flagged");
    }
}

#[test]
fn actions_are_parsed_by_name() {
    assert_eq!(Action::parse("log"), Action::Log);
    assert_eq!(Action::parse("inform"), Action::Inform);
    assert_eq!(Action::parse("strip"), Action::Strip);
    assert_eq!(Action::parse("reject"), Action::Reject);
    assert_eq!(Action::parse("off"), Action::Off);
    assert_eq!(Action::parse(""), Action::Off);
    assert_eq!(Action::parse("Reject"), Action::Off);
}

#[test]
fn markers_and_actions_go_by_kind() {
    assert_eq!(DriftKind::Unexpected.marker(), '+');
    assert_eq!(DriftKind::MissingRequired.marker(), '-');
    assert_eq!(DriftKind::TypeMismatch.marker(), '~');
    assert_eq!(DriftKind::Sensitive.marker(), '!');
    let a = Actions {
        unexpected: Action::Log,
        missing_required: Action::Reject,
        type_mismatch: Action::Inform,
        sensitive: Action::Strip,
    };
    assert_eq!(a.for_kind(DriftKind::Unexpected), Action::Log);
    assert_eq!(a.for_kind(DriftKind::MissingRequired), Action::Reject);
    assert_eq!(a.for_kind(DriftKind::TypeMismatch), Action::Inform);
    assert_eq!(a.for_kind(DriftKind::Sensitive), Action::Strip);
}

#[test]
fn a_missing_field_is_reported_where_it_was_to_be_stripped() {
    let dec = decide(&[drift(DriftKind::MissingRequired, "currency")], &all(Action::Strip));
    assert!(!dec.reject);
    assert!(dec.strip.is_empty());
    assert!(dec.inform);
    assert_eq!(dec.summary, "-currency");
}

#[test]
fn the_summary_names_each_drift_once() {
    let d = vec![
        drift(DriftKind::Sensitive, "customerEmail"),
        drift(DriftKind::Unexpected, "internalMargin"),
        drift(DriftKind::Sensitive, "customerEmail"),
        drift(DriftKind::TypeMismatch, "customerEmail"),
    ];
    let dec = decide(&d, &actions());
    assert_eq!(dec.summary, "!customerEmail,+internalMargin,~customerEmail");
    assert_eq!(*dec.strip.names(), vec!["customerEmail", "internalMargin"]);
    assert!(dec.inform);
}

#[test]
fn logged_drifts_are_named_each_time() {
    let d = vec![
        drift(DriftKind::Unexpected, "a"),
        drift(DriftKind::MissingRequired, "b"),
        drift(DriftKind::TypeMismatch, "c"),
        drift(DriftKind::Sensitive, "d"),
        drift(DriftKind::Unexpected, "a"),
    ];
    let dec = decide(&d, &all(Action::Log));
    assert_eq!(
        dec.logged,
        vec!["Unexpected:a", "MissingRequired:b", "TypeMismatch:c", "Sensitive:d", "Unexpected:a"]
    );
    assert_eq!(dec.summary, "+a,-b,~c,!d");
    assert!(!dec.reject && !dec.inform && dec.strip.is_empty());
}

#[test]
fn without_drifts_nothing_is_decided() {
    let dec = decide(&[], &all(Action::Reject));
    assert_eq!(dec, Decision::default());
    assert_eq!(
        dec,
        Decision {
            reject: false,
            strip: FieldSet::new(),
            inform: false,
            summary: String::new(),
            logged: Vec::new(),
        }
    );
}

#[test]
fn stripping_twice_changes_nothing_more() {
    let mut r = rec(r#"{"a":1,"b":2,"c":3}"#);
    let strip = FieldSet::of(vec!["b".to_string(), "x".to_string()]);
    assert!(apply_strip(&mut r, &strip));
    assert_eq!(r, rec(r#"{"a":1,"c":3}"#));
    assert!(!apply_strip(&mut r, &strip));
    assert_eq!(r, rec(r#"{"a":1,"c":3}"#));
    assert!(!apply_strip(&mut r, &FieldSet::new()));
}

#[test]
fn a_stripped_record_has_no_stripped_drift() {
    let mut r = rec(
        r#"{"orderId":"SO-1","total":"x","currency":"USD","internalMargin":1,"customerEmail":"a"}"#,
    );
    let dec = decide(&analyze_record(&r, &contract()), &actions());
    assert!(apply_strip(&mut r, &dec.strip));
    assert_eq!(
        analyze_record(&r, &contract()),
        vec![drift(DriftKind::TypeMismatch, "total")]
    );
}

#[test]
fn a_contract_block_runs_from_the_first_to_the_last_bracket() {
    let found = contract_block("prose... contract-fields= [ {\"a\":[1]} ] and more", "contract-fields=");
    assert_eq!(found.as_deref(), Some("[ {\"a\":[1]} ]"));
    let found = contract_block("[before] m=[1] m=[2] tail", "m=");
    assert_eq!(found.as_deref(), Some("[1] m=[2]"));
    assert_eq!(contract_block("[x]", "").as_deref(), Some("[x]"));
    assert_eq!(contract_block("über m=[é]ß", "m=").as_deref(), Some("[é]"));
}

#[test]
fn an_absent_contract_block_is_none() {
    assert_eq!(contract_block("no marker here", "contract-fields="), None);
    assert_eq!(contract_block("contract-fields= not json", "contract-fields="), None);
    assert_eq!(contract_block("[] contract-fields=", "contract-fields="), None);
    assert_eq!(contract_block("m= ] [", "m="), None);
    assert_eq!(contract_block("m= [ only", "m="), None);
    assert_eq!(contract_block("m= only ]", "m="), None);
}

#[test]
fn a_field_set_is_ordered_and_holds_each_name_once() {
    let mut set = FieldSet::of(vec!["b".to_string(), "a".to_string(), "b".to_string()]);
    assert_eq!(*set.names(), vec!["a", "b"]);
    set.insert("aa".to_string());
    set.insert("B".to_string());
    set.insert("a".to_string());
    assert_eq!(*set.names(), vec!["B", "a", "aa", "b"]);
    assert!(set.contains("aa"));
    assert!(!set.contains("A"));
    assert!(!set.is_empty());
    assert!(FieldSet::default().is_empty());
}
