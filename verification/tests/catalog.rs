use contract_conformance_guard::catalog::{
    build_contract, identities, read_links, read_terms, s, sensitive_by, sensitive_levels,
    sensitive_term, term_ids, Link, Term,
};
use contract_conformance_guard::config::Config;
use contract_conformance_guard::conformance::ContractField;
use contract_conformance_guard::fetch::{
    first_fetch_step, next_after_search, next_fetch_step, search_hits, Auth, Endpoint, FetchError,
    FetchStep, HttpCall, Identity, Pending, Reply, Stage,
};
use contract_conformance_guard::json::Json;
use std::time::{Duration, SystemTime};

fn config() -> Config {
    Config {
        cdgc_org_username: "user".to_string(),
        cdgc_org_password: "pass\"word".to_string(),
        schema_id: "asset-1".to_string(),
        schema_id_header: None,
        records_path: None,
        on_unexpected_field: None,
        on_missing_required: None,
        on_type_mismatch: None,
        on_sensitive_field: None,
        sensitive_levels: None,
        sensitive_marker: None,
        refresh_interval_seconds: None,
        fail_open_on_cdgc_error: None,
        distributed: None,
        timeout: None,
    }
}

fn docs(text: &str) -> Vec<Json> {
    match Json::parse(text) {
        Some(Json::List(items)) => items,
        other => panic!("no list: {other:?}"),
    }
}

fn auth() -> Auth {
    Auth { token: "jwt".to_string(), org: "org".to_string() }
}

fn identity() -> Identity {
    Identity { name: Some("orders.csv".to_string()), external_id: Some("ext".to_string()) }
}

fn term(id: &str, level: &str, description: &str, is_cde: bool) -> Term {
    Term {
        id: id.to_string(),
        name: Some(format!("Term {id}")),
        description: description.to_string(),
        level: level.to_string(),
        is_cde,
    }
}

fn link(column: &str, term: &str) -> Link {
    Link { column: column.to_string(), term: term.to_string() }
}

fn call(step: FetchStep) -> (HttpCall, Pending) {
    match step {
        FetchStep::Call { call, pending } => (call, pending),
        other => panic!("no call: {other:?}"),
    }
}

fn after(pending: Pending, reply: Reply, elapsed: i64) -> FetchStep {
    let now = SystemTime::UNIX_EPOCH + Duration::from_nanos(1_234_567_890_123);
    next_fetch_step(&config(), "asset-1", pending, reply, now, elapsed)
}

fn found(sources: &str) -> Reply {
    let hits = docs(sources)
        .iter()
        .map(|d| format!("{{\"sourceAsMap\":{}}}", d.to_text()))
        .collect::<Vec<_>>()
        .join(",");
    Reply::Search { status: 200, body: format!("{{\"hits\":{{\"hits\":[{hits}]}}}}").into_bytes() }
}

#[test]
fn a_text_is_read_by_key() {
    let d = docs(r#"[{"a":"x","b":1}]"#);
    assert_eq!(s(&d[0], "a").as_deref(), Some("x"));
    assert_eq!(s(&d[0], "b"), None);
    assert_eq!(s(&d[0], "c"), None);
}

#[test]
fn links_need_both_ends() {
    let d = docs(
        r#"[{"core.sourceIdentity":"c1","core.targetIdentity":"t1"},
            {"core.sourceIdentity":"c2"},
            {"core.targetIdentity":"t2"},
            {"core.sourceIdentity":"c1","core.targetIdentity":"t2"},
            {"core.sourceIdentity":"c3","core.targetIdentity":"t1"}]"#,
    );
    let links = read_links(&d);
    assert_eq!(links, vec![link("c1", "t1"), link("c1", "t2"), link("c3", "t1")]);
    assert_eq!(term_ids(&links), vec!["t1", "t2"]);
}

#[test]
fn identities_and_terms_are_read_from_their_documents() {
    let d = docs(
        r#"[{"core.identity":"t1","core.name":"Cost","core.description":"Confidential cost",
             "com.infa.ccgf.models.governance.securityClassification":"Restricted",
             "com.infa.ccgf.models.governance.isCDE":true},
            {"core.name":"no identity"},
            {"core.identity":"t2","com.infa.ccgf.models.governance.isCDE":"true"}]"#,
    );
    assert_eq!(identities(&d), vec!["t1", "t2"]);
    assert_eq!(
        read_terms(&d),
        vec![
            Term {
                id: "t1".to_string(),
                name: Some("Cost".to_string()),
                description: "Confidential cost".to_string(),
                level: "Restricted".to_string(),
                is_cde: true,
            },
            Term {
                id: "t2".to_string(),
                name: None,
                description: String::new(),
                level: String::new(),
                is_cde: false,
            },
        ]
    );
}

#[test]
fn levels_are_read_in_lower_case() {
    assert_eq!(
        sensitive_levels(" Confidential,RESTRICTED ,, \t,Über"),
        vec!["confidential", "restricted", "über"]
    );
    assert!(sensitive_levels("").is_empty());
}

#[test]
fn a_level_decides_and_the_marker_stands_in_for_it() {
    let marker = "confidential".to_string();
    let levels = vec!["confidential".to_string(), "restricted".to_string()];
    assert!(sensitive_term(&term("t", " Restricted ", "", false), &marker, &levels));
    assert!(!sensitive_term(&term("t", "Public", "CONFIDENTIAL", false), &marker, &levels));
    assert!(sensitive_term(&term("t", "", "This is CONFIDENTIAL.", false), &marker, &levels));
    assert!(sensitive_term(&term("t", "  ", "Confidential", false), &marker, &levels));
    assert!(!sensitive_term(&term("t", "", "open", false), &marker, &levels));
    assert!(sensitive_by(&String::new(), &"x".to_string(), &String::new(), &levels));
}

#[test]
fn a_contract_has_one_field_per_column() {
    let columns = docs(
        r#"[{"core.identity":"c1","core.name":"sku","core.dataType":"STRING","core.inferredDataType":"int"},
            {"core.identity":"c2","core.name":"unit_cost","core.inferredDataType":"decimal"},
            {"core.identity":"c3"},
            {"core.name":"no identity"},
            {"core.identity":"c4","core.name":"free"},
            {"core.identity":"c5","core.name":"dangling"}]"#,
    );
    let links = vec![link("c1", "t1"), link("c1", "t2"), link("c2", "t2"), link("c5", "t9")];
    let terms = vec![
        term("t1", "", "", false),
        term("t2", "Confidential", "", true),
        term("t1", "", "", true),
    ];
    let levels = vec!["confidential".to_string()];
    let fields = build_contract(&columns, &links, &terms, &"marker".to_string(), &levels);
    let field = |name: &str, ftype: Option<&str>, required, sensitive, term: Option<&str>| {
        ContractField {
            name: name.to_string(),
            ftype: ftype.map(|t| t.to_string()),
            required,
            sensitive,
            term: term.map(|t| t.to_string()),
        }
    };
    assert_eq!(
        fields,
        vec![
            field("sku", Some("STRING"), true, false, Some("Term t1")),
            field("unit_cost", Some("decimal"), true, true, Some("Term t2")),
            field("free", None, false, false, None),
            field("dangling", None, false, false, None),
        ]
    );
}

#[test]
fn hits_are_the_sources_of_an_answer() {
    let answer = Json::parse(r#"{"hits":{"hits":[{"sourceAsMap":{"a":1}},{"x":2},7,{"sourceAsMap":null}]}}"#);
    assert_eq!(search_hits(&answer.expect("json")), docs(r#"[{"a":1},null]"#));
    for text in ["{}", r#"{"hits":[]}"#, r#"{"hits":{"hits":{}}}"#, "7"] {
        assert!(search_hits(&Json::parse(text).expect("json")).is_empty());
    }
}

#[test]
fn a_fetch_begins_with_the_sign_in() {
    let (c, pending) = call(first_fetch_step(&config(), 0));
    assert_eq!(pending, Pending::Login);
    assert_eq!(
        c,
        HttpCall {
            endpoint: Endpoint::Login,
            post: true,
            path: "/identity-service/api/v1/Login".to_string(),
            headers: vec![("Content-Type".to_string(), "application/json".to_string())],
            body: Some(r#"{"password":"pass\"word","username":"user"}"#.to_string()),
            timeout_ms: 5_000,
        }
    );
}

#[test]
fn a_session_is_traded_for_a_token() {
    let session = Some(("sid".to_string(), "org".to_string()));
    let (c, pending) = call(after(Pending::Login, Reply::Login { status: 200, session }, 7_000));
    assert_eq!(pending, Pending::Token { org: "org".to_string() });
    assert_eq!(
        c,
        HttpCall {
            endpoint: Endpoint::Login,
            post: false,
            path: "/identity-service/api/v1/jwt/Token?client_id=idmc_api&nonce=1234567890123"
                .to_string(),
            headers: vec![
                ("cookie".to_string(), "USER_SESSION=sid".to_string()),
                ("IDS-SESSION-ID".to_string(), "sid".to_string()),
            ],
            body: None,
            timeout_ms: 3_000,
        }
    );
}

#[test]
fn the_searches_follow_one_another() {
    let token = Reply::Token { status: 200, token: Some("jwt".to_string()) };
    let (c, pending) = call(after(Pending::Token { org: "org".to_string() }, token, 0));
    assert_eq!(pending, Pending::Asset { auth: auth() });
    assert_eq!(c.endpoint, Endpoint::Search);
    assert!(c.post);
    assert_eq!(c.path, "/ccgf-searchv2/api/v1/search");
    assert_eq!(
        c.headers,
        vec![
            ("Authorization".to_string(), "Bearer jwt".to_string()),
            ("X-INFA-ORG-ID".to_string(), "org".to_string()),
            ("X-INFA-SEARCH-LANGUAGE".to_string(), "elasticsearch".to_string()),
            ("Content-Type".to_string(), "application/json".to_string()),
        ]
    );
    assert_eq!(
        c.body.as_deref(),
        Some(
            r#"{"from":0,"query":{"bool":{"must":[{"terms":{"elementType":["OBJECT"]}},{"terms":{"core.identity":["asset-1"]}}]}},"size":1}"#
        )
    );

    let asset = found(
        r#"[{"core.location":"loc","core.name":"orders.csv","core.externalId":"ext"},{"core.location":"other"}]"#,
    );
    let (c, pending) = call(after(pending, asset, 0));
    assert_eq!(pending, Pending::Columns { auth: auth(), identity: identity() });
    assert_eq!(
        c.body.as_deref(),
        Some(
            r#"{"from":0,"query":{"bool":{"filter":[{"terms":{"core.location::path_hierarchy.parent":["loc"]}}],"must":[{"terms":{"core.classType":["com.infa.odin.models.file.flat.FlatField"]}}]}},"size":1000}"#
        )
    );

    let columns = r#"[{"core.identity":"c1","core.name":"sku"},{"core.name":"x"}]"#;
    let (c, pending) = call(after(pending, found(columns), 0));
    assert_eq!(
        pending,
        Pending::Links { auth: auth(), identity: identity(), columns: docs(columns) }
    );
    assert_eq!(
        c.body.as_deref(),
        Some(
            r#"{"from":0,"query":{"bool":{"must":[{"terms":{"elementType":["RELATIONSHIP"]}},{"terms":{"type":["com.infa.ccgf.models.governance.IClassTechnicalGlossaryBase"]}},{"terms":{"core.sourceIdentity":["c1"]}}]}},"size":5000}"#
        )
    );

    let links = found(r#"[{"core.sourceIdentity":"c1","core.targetIdentity":"t1"}]"#);
    let (c, pending) = call(after(pending, links, 0));
    assert_eq!(
        pending,
        Pending::Terms {
            identity: identity(),
            columns: docs(columns),
            links: vec![link("c1", "t1")]
        }
    );
    assert_eq!(
        c.body.as_deref(),
        Some(
            r#"{"from":0,"query":{"bool":{"must":[{"terms":{"elementType":["OBJECT"]}},{"terms":{"core.identity":["t1"]}}]}},"size":5000}"#
        )
    );

    let terms = found(
        r#"[{"core.identity":"t1","core.name":"SKU","core.description":"Confidential","com.infa.ccgf.models.governance.isCDE":true}]"#,
    );
    assert_eq!(
        after(pending, terms, 9_999),
        FetchStep::Done {
            fields: vec![ContractField {
                name: "sku".to_string(),
                ftype: None,
                required: true,
                sensitive: true,
                term: Some("SKU".to_string()),
            }],
            identity: identity(),
        }
    );
}

#[test]
fn without_linked_terms_the_contract_is_built_at_once() {
    let pending = Pending::Links {
        auth: auth(),
        identity: identity(),
        columns: docs(r#"[{"core.identity":"c1","core.name":"sku"}]"#),
    };
    match next_after_search(&config(), pending, Vec::new(), 20_000) {
        FetchStep::Done { fields, .. } => {
            assert_eq!(fields.len(), 1);
            assert!(!fields[0].required && !fields[0].sensitive && fields[0].term.is_none());
        }
        other => panic!("not done: {other:?}"),
    }
}

#[test]
fn configured_levels_and_marker_are_used() {
    let mut c = config();
    c.sensitive_levels = Some("Secret".to_string());
    c.sensitive_marker = Some("PII".to_string());
    let sensitive = |level: &str, description: &str| {
        let pending = Pending::Terms {
            identity: identity(),
            columns: docs(r#"[{"core.identity":"c1","core.name":"sku"}]"#),
            links: vec![link("c1", "t1")],
        };
        let t = Json::object()
            .with("core.identity", Json::text("t1"))
            .with("core.description", Json::text(description))
            .with("com.infa.ccgf.models.governance.securityClassification", Json::text(level));
        match next_after_search(&c, pending, vec![t], 0) {
            FetchStep::Done { fields, .. } => fields[0].sensitive,
            other => panic!("not done: {other:?}"),
        }
    };
    assert!(sensitive("SECRET", ""));
    assert!(!sensitive("Confidential", "pii"));
    assert!(sensitive("", "holds pii"));
    assert!(!sensitive("", "confidential"));
}

#[test]
fn every_failure_has_its_error() {
    let failed = |step: FetchStep| match step {
        FetchStep::Failed(e) => e,
        other => panic!("not failed: {other:?}"),
    };
    let token = || Pending::Token { org: "org".to_string() };
    let asset = || Pending::Asset { auth: auth() };
    let columns = || Pending::Columns { auth: auth(), identity: identity() };
    let session = || Some(("sid".to_string(), "org".to_string()));
    let jwt = || Some("jwt".to_string());

    assert_eq!(failed(first_fetch_step(&config(), 10_000)), FetchError::Budget(Stage::Login));
    assert_eq!(
        failed(after(Pending::Login, Reply::Login { status: 200, session: session() }, 10_000)),
        FetchError::Budget(Stage::Token)
    );
    assert_eq!(
        failed(after(token(), Reply::Token { status: 200, token: jwt() }, 10_000)),
        FetchError::Budget(Stage::Search)
    );
    assert_eq!(failed(after(Pending::Login, Reply::Failed, 0)), FetchError::Call(Stage::Login));
    assert_eq!(failed(after(token(), Reply::Failed, 0)), FetchError::Call(Stage::Token));
    assert_eq!(failed(after(asset(), Reply::Failed, 0)), FetchError::Call(Stage::Search));
    assert_eq!(
        failed(after(Pending::Login, Reply::Login { status: 300, session: session() }, 0)),
        FetchError::Status(Stage::Login, 300)
    );
    assert_eq!(
        failed(after(token(), Reply::Token { status: 401, token: jwt() }, 0)),
        FetchError::Status(Stage::Token, 401)
    );
    assert_eq!(
        failed(after(asset(), Reply::Search { status: 500, body: Vec::new() }, 0)),
        FetchError::Status(Stage::Search, 500)
    );
    assert_eq!(
        failed(after(Pending::Login, Reply::Login { status: 299, session: None }, 0)),
        FetchError::Answer(Stage::Login)
    );
    assert_eq!(
        failed(after(token(), Reply::Token { status: 200, token: None }, 0)),
        FetchError::Answer(Stage::Token)
    );
    assert_eq!(
        failed(after(asset(), Reply::Search { status: 200, body: b"no json".to_vec() }, 0)),
        FetchError::Answer(Stage::Search)
    );
    assert_eq!(failed(after(asset(), found("[]"), 0)), FetchError::AssetNotFound);
    assert_eq!(
        failed(after(asset(), found(r#"[{"core.name":"n"}]"#), 0)),
        FetchError::NoLocation
    );
    assert_eq!(failed(after(columns(), found("[]"), 0)), FetchError::NoColumns);
}
