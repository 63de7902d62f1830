//! The catalog calls that fetch a contract, one after the other.
//!
//! Login, JWT, the schema asset, its columns, their links to Business Terms,
//! and the terms. What a call's reply says decides the next call; the caller
//! performs the calls.

use crate::catalog::{
    build_contract, contract_of, identities, identities_of, levels_of, linked_terms, links_of,
    links_view, read_links, read_terms, s, sensitive_levels, term_ids, terms_of, terms_view, Link,
    LinkView, Term, TermView,
};
use crate::cdgc::{nonce_from_time, nonce_of};
use crate::config::{per_call_ms, per_call_ms_of, setting_or, text_or, Config};
use crate::conformance::{fields_view, ContractField, FieldView};
use crate::json::{
    empty_object, json_of_bytes, json_text, list_member, list_view, member, number_from,
    text_member, with_member, Json, JsonView,
};
use crate::text::{lowercase, optional_text, texts, to_lowercase};
use crate::timing::{
    call_timeout, epoch_nanos, next_call_timeout, timeout_within_budget, CDGC_REFRESH_BUDGET_MS,
};
use std::time::SystemTime;
use vstd::prelude::*;

verus! {

// ---- calls ----

/// The catalog's hosts.
#[derive(Debug, Clone, Copy, PartialEq, Eq, Structural)]
pub enum Endpoint {
    Login,
    Search,
}

/// A catalog call to perform.
#[derive(Debug, PartialEq)]
pub struct HttpCall {
    pub endpoint: Endpoint,
    /// Whether the call is a POST; else it is a GET.
    pub post: bool,
    pub path: String,
    pub headers: Vec<(String, String)>,
    pub body: Option<String>,
    pub timeout_ms: u64,
}

/// What a call says.
pub struct CallView {
    pub endpoint: Endpoint,
    pub post: bool,
    pub path: Seq<char>,
    pub headers: Seq<(Seq<char>, Seq<char>)>,
    pub body: Option<Seq<char>>,
    pub timeout_ms: u64,
}

/// The names and values of headers.
pub open spec fn headers_view(headers: Seq<(String, String)>) -> Seq<(Seq<char>, Seq<char>)> {
    headers.map_values(|h: (String, String)| (h.0@, h.1@))
}

impl View for HttpCall {
    type V = CallView;

    open spec fn view(&self) -> CallView {
        CallView {
            endpoint: self.endpoint,
            post: self.post,
            path: self.path@,
            headers: headers_view(self.headers@),
            body: optional_text(self.body),
            timeout_ms: self.timeout_ms,
        }
    }
}

/// Adds a header.
fn push_header(headers: &mut Vec<(String, String)>, name: &str, value: &str)
    ensures
        headers_view(final(headers)@) == headers_view(old(headers)@).push((name@, value@)),
{
    let ghost held = headers_view(headers@);
    headers.push((name.to_owned(), value.to_owned()));
    assert(headers_view(headers@) =~= held.push((name@, value@)));
}

/// The sign-in document.
pub open spec fn login_document(config: Config) -> JsonView {
    with_member(
        with_member(empty_object(), "username"@, JsonView::Text(config.cdgc_org_username@)),
        "password"@,
        JsonView::Text(config.cdgc_org_password@),
    )
}

/// The sign-in call.
pub open spec fn login_call_of(config: Config, timeout_ms: u64) -> CallView {
    CallView {
        endpoint: Endpoint::Login,
        post: true,
        path: "/identity-service/api/v1/Login"@,
        headers: seq![("Content-Type"@, "application/json"@)],
        body: Some(json_text(login_document(config))),
        timeout_ms,
    }
}

/// The sign-in call.
fn login_call(config: &Config, timeout_ms: u64) -> (r: HttpCall)
    ensures
        r@ == login_call_of(*config, timeout_ms),
{
    let document = Json::object().with(
        "username",
        Json::text(config.cdgc_org_username.as_str()),
    ).with("password", Json::text(config.cdgc_org_password.as_str()));
    let mut headers: Vec<(String, String)> = Vec::new();
    push_header(&mut headers, "Content-Type", "application/json");
    assert(headers_view(headers@) =~= seq![("Content-Type"@, "application/json"@)]);
    HttpCall {
        endpoint: Endpoint::Login,
        post: true,
        path: "/identity-service/api/v1/Login".to_owned(),
        headers,
        body: Some(document.to_text()),
        timeout_ms,
    }
}

/// The call for a JWT.
pub open spec fn token_call_of(
    session_id: Seq<char>,
    nonce: Seq<char>,
    timeout_ms: u64,
) -> CallView {
    CallView {
        endpoint: Endpoint::Login,
        post: false,
        path: "/identity-service/api/v1/jwt/Token?client_id=idmc_api&nonce="@ + nonce,
        headers: seq![("cookie"@, "USER_SESSION="@ + session_id), ("IDS-SESSION-ID"@, session_id)],
        body: None,
        timeout_ms,
    }
}

/// The call for a JWT.
fn token_call(session_id: &String, nonce: &String, timeout_ms: u64) -> (r: HttpCall)
    ensures
        r@ == token_call_of(session_id@, nonce@, timeout_ms),
{
    let mut path: String = "/identity-service/api/v1/jwt/Token?client_id=idmc_api&nonce=".to_owned();
    path.append(nonce.as_str());
    let mut cookie: String = "USER_SESSION=".to_owned();
    cookie.append(session_id.as_str());
    let mut headers: Vec<(String, String)> = Vec::new();
    push_header(&mut headers, "cookie", cookie.as_str());
    push_header(&mut headers, "IDS-SESSION-ID", session_id.as_str());
    assert(headers_view(headers@) =~= seq![
        ("cookie"@, cookie@),
        ("IDS-SESSION-ID"@, session_id@),
    ]);
    HttpCall { endpoint: Endpoint::Login, post: false, path, headers, body: None, timeout_ms }
}

/// A signed-in session: the JWT and the organization.
#[derive(Debug, PartialEq)]
pub struct Auth {
    pub token: String,
    pub org: String,
}

/// What a session holds.
pub struct AuthView {
    pub token: Seq<char>,
    pub org: Seq<char>,
}

impl View for Auth {
    type V = AuthView;

    open spec fn view(&self) -> AuthView {
        AuthView { token: self.token@, org: self.org@ }
    }
}

/// A search call.
pub open spec fn search_call_of(auth: AuthView, query: JsonView, timeout_ms: u64) -> CallView {
    CallView {
        endpoint: Endpoint::Search,
        post: true,
        path: "/ccgf-searchv2/api/v1/search"@,
        headers: seq![
            ("Authorization"@, "Bearer "@ + auth.token),
            ("X-INFA-ORG-ID"@, auth.org),
            ("X-INFA-SEARCH-LANGUAGE"@, "elasticsearch"@),
            ("Content-Type"@, "application/json"@),
        ],
        body: Some(json_text(query)),
        timeout_ms,
    }
}

/// A search call.
fn search_call(auth: &Auth, query: &Json, timeout_ms: u64) -> (r: HttpCall)
    ensures
        r@ == search_call_of(auth@, query@, timeout_ms),
{
    let mut bearer: String = "Bearer ".to_owned();
    bearer.append(auth.token.as_str());
    let mut headers: Vec<(String, String)> = Vec::new();
    push_header(&mut headers, "Authorization", bearer.as_str());
    push_header(&mut headers, "X-INFA-ORG-ID", auth.org.as_str());
    push_header(&mut headers, "X-INFA-SEARCH-LANGUAGE", "elasticsearch");
    push_header(&mut headers, "Content-Type", "application/json");
    assert(headers_view(headers@) =~= seq![
        ("Authorization"@, bearer@),
        ("X-INFA-ORG-ID"@, auth.org@),
        ("X-INFA-SEARCH-LANGUAGE"@, "elasticsearch"@),
        ("Content-Type"@, "application/json"@),
    ]);
    HttpCall {
        endpoint: Endpoint::Search,
        post: true,
        path: "/ccgf-searchv2/api/v1/search".to_owned(),
        headers,
        body: Some(query.to_text()),
        timeout_ms,
    }
}

// ---- queries ----

/// Texts as a list document.
pub open spec fn text_list(values: Seq<Seq<char>>) -> JsonView {
    JsonView::List(values.map_values(|v: Seq<char>| JsonView::Text(v)))
}

/// The condition that a field has one of the values.
pub open spec fn terms_query(field: Seq<char>, values: Seq<Seq<char>>) -> JsonView {
    with_member(
        empty_object(),
        "terms"@,
        with_member(empty_object(), field, text_list(values)),
    )
}

/// A search for `size` hits that meet the conditions.
pub open spec fn search_of(size: i64, conditions: JsonView) -> JsonView {
    let from = with_member(empty_object(), "from"@, JsonView::Number(number_from(0)));
    let sized = with_member(from, "size"@, JsonView::Number(number_from(size)));
    with_member(sized, "query"@, with_member(empty_object(), "bool"@, conditions))
}

/// Conditions that all must be met.
pub open spec fn must(conditions: Seq<JsonView>) -> JsonView {
    with_member(empty_object(), "must"@, JsonView::List(conditions))
}

/// The search for the schema asset.
pub open spec fn asset_query(schema_id: Seq<char>) -> JsonView {
    search_of(
        1,
        must(
            seq![
                terms_query("elementType"@, seq!["OBJECT"@]),
                terms_query("core.identity"@, seq![schema_id]),
            ],
        ),
    )
}

/// The search for the columns below a location.
pub open spec fn columns_query(location: Seq<char>) -> JsonView {
    search_of(
        1000,
        with_member(
            must(
                seq![
                    terms_query("core.classType"@, seq!["com.infa.odin.models.file.flat.FlatField"@]),
                ],
            ),
            "filter"@,
            JsonView::List(
                seq![terms_query("core.location::path_hierarchy.parent"@, seq![location])],
            ),
        ),
    )
}

/// The search for the columns' links to Business Terms.
pub open spec fn links_query(columns: Seq<Seq<char>>) -> JsonView {
    search_of(
        5000,
        must(
            seq![
                terms_query("elementType"@, seq!["RELATIONSHIP"@]),
                terms_query(
                    "type"@,
                    seq!["com.infa.ccgf.models.governance.IClassTechnicalGlossaryBase"@],
                ),
                terms_query("core.sourceIdentity"@, columns),
            ],
        ),
    )
}

/// The search for Business Terms.
pub open spec fn terms_search(ids: Seq<Seq<char>>) -> JsonView {
    search_of(
        5000,
        must(
            seq![
                terms_query("elementType"@, seq!["OBJECT"@]),
                terms_query("core.identity"@, ids),
            ],
        ),
    )
}

/// The condition that a field has one of the values.
fn has_one_of(field: &str, values: &Vec<String>) -> (r: Json)
    ensures
        r@ == terms_query(field@, texts(values@)),
{
    let ghost all = texts(values@).map_values(|v: Seq<char>| JsonView::Text(v));
    let mut items: Vec<Json> = Vec::new();
    let mut i: usize = 0;
    while i < values.len()
        invariant
            i <= values@.len(),
            all == texts(values@).map_values(|v: Seq<char>| JsonView::Text(v)),
            list_view(items@) == all.take(i as int),
        decreases values@.len() - i,
    {
        let ghost held = list_view(items@);
        items.push(Json::Text(values[i].clone()));
        assert(list_view(items@) =~= held.push(all[i as int]));
        i = i + 1;
        assert(list_view(items@) =~= all.take(i as int));
    }
    assert(all.take(i as int) =~= all);
    Json::object().with("terms", Json::object().with(field, Json::list(items)))
}

/// The condition that a field has the value.
fn has_value(field: &str, value: &str) -> (r: Json)
    ensures
        r@ == terms_query(field@, seq![value@]),
{
    let mut values: Vec<String> = Vec::new();
    values.push(value.to_owned());
    assert(texts(values@) =~= seq![value@]);
    has_one_of(field, &values)
}

/// A search for `size` hits that meet the conditions.
fn search(size: i64, conditions: Json) -> (r: Json)
    ensures
        r@ == search_of(size, conditions@),
{
    Json::object().with("from", Json::integer(0)).with("size", Json::integer(size)).with(
        "query",
        Json::object().with("bool", conditions),
    )
}

/// The search for the schema asset.
fn find_asset(schema_id: &str) -> (r: Json)
    ensures
        r@ == asset_query(schema_id@),
{
    let mut conditions: Vec<Json> = Vec::new();
    conditions.push(has_value("elementType", "OBJECT"));
    conditions.push(has_value("core.identity", schema_id));
    assert(list_view(conditions@) =~= seq![
        terms_query("elementType"@, seq!["OBJECT"@]),
        terms_query("core.identity"@, seq![schema_id@]),
    ]);
    search(1, Json::object().with("must", Json::list(conditions)))
}

/// The search for the columns below a location.
fn find_columns(location: &str) -> (r: Json)
    ensures
        r@ == columns_query(location@),
{
    let mut conditions: Vec<Json> = Vec::new();
    conditions.push(has_value("core.classType", "com.infa.odin.models.file.flat.FlatField"));
    assert(list_view(conditions@) =~= seq![
        terms_query("core.classType"@, seq!["com.infa.odin.models.file.flat.FlatField"@]),
    ]);
    let mut filters: Vec<Json> = Vec::new();
    filters.push(has_value("core.location::path_hierarchy.parent", location));
    assert(list_view(filters@) =~= seq![
        terms_query("core.location::path_hierarchy.parent"@, seq![location@]),
    ]);
    search(
        1000,
        Json::object().with("must", Json::list(conditions)).with("filter", Json::list(filters)),
    )
}

/// The search for the columns' links to Business Terms.
fn find_links(columns: &Vec<String>) -> (r: Json)
    ensures
        r@ == links_query(texts(columns@)),
{
    let mut conditions: Vec<Json> = Vec::new();
    conditions.push(has_value("elementType", "RELATIONSHIP"));
    conditions.push(
        has_value("type", "com.infa.ccgf.models.governance.IClassTechnicalGlossaryBase"),
    );
    conditions.push(has_one_of("core.sourceIdentity", columns));
    assert(list_view(conditions@) =~= seq![
        terms_query("elementType"@, seq!["RELATIONSHIP"@]),
        terms_query(
            "type"@,
            seq!["com.infa.ccgf.models.governance.IClassTechnicalGlossaryBase"@],
        ),
        terms_query("core.sourceIdentity"@, texts(columns@)),
    ]);
    search(5000, Json::object().with("must", Json::list(conditions)))
}

/// The search for Business Terms.
fn find_terms(ids: &Vec<String>) -> (r: Json)
    ensures
        r@ == terms_search(texts(ids@)),
{
    let mut conditions: Vec<Json> = Vec::new();
    conditions.push(has_value("elementType", "OBJECT"));
    conditions.push(has_one_of("core.identity", ids));
    assert(list_view(conditions@) =~= seq![
        terms_query("elementType"@, seq!["OBJECT"@]),
        terms_query("core.identity"@, texts(ids@)),
    ]);
    search(5000, Json::object().with("must", Json::list(conditions)))
}

// ---- replies ----

/// The kinds of catalog calls.
#[derive(Debug, Clone, Copy, PartialEq, Eq, Structural)]
pub enum Stage {
    Login,
    Token,
    Search,
}

/// Why a contract could not be fetched.
#[derive(Debug, Clone, Copy, PartialEq, Eq, Structural)]
pub enum FetchError {
    /// The time budget was used up before the call.
    Budget(Stage),
    /// The call failed.
    Call(Stage),
    /// The catalog answered with this status.
    Status(Stage, u32),
    /// The answer could not be read.
    Answer(Stage),
    AssetNotFound,
    /// The schema asset has no location.
    NoLocation,
    /// The schema asset has no columns.
    NoColumns,
}

/// The sources of search hits, of those that have one.
pub open spec fn sources_of(hits: Seq<JsonView>) -> Seq<JsonView>
    decreases hits.len(),
{
    if hits.len() == 0 {
        seq![]
    } else {
        let done = sources_of(hits.drop_last());
        match member(hits.last(), "sourceAsMap"@) {
            Some(source) => done.push(source),
            None => done,
        }
    }
}

/// What a search found, by its answer: the sources of the hits under
/// `hits.hits`.
pub open spec fn found_in(answer: JsonView) -> Seq<JsonView> {
    match member(answer, "hits"@) {
        Some(hits) => match list_member(hits, "hits"@) {
            Some(list) => sources_of(list),
            None => seq![],
        },
        None => seq![],
    }
}

/// What a search found, by its answer.
pub fn search_hits(answer: &Json) -> (r: Vec<Json>)
    ensures
        list_view(r@) == found_in(answer@),
{
    let mut out: Vec<Json> = Vec::new();
    let hits: Option<&Vec<Json>> = match answer.get("hits") {
        Some(h) => h.get_list("hits"),
        None => None,
    };
    match hits {
        Some(list) => {
            let ghost all = list_view(list@);
            let mut i: usize = 0;
            assert(list_view(out@) =~= sources_of(all.take(0)));
            while i < list.len()
                invariant
                    i <= list@.len(),
                    all == list_view(list@),
                    list_view(out@) == sources_of(all.take(i as int)),
                decreases list@.len() - i,
            {
                let ghost held = list_view(out@);
                assert(all.take(i + 1).drop_last() =~= all.take(i as int));
                assert(all.take(i + 1).last() == list@[i as int]@);
                match list[i].get("sourceAsMap") {
                    Some(source) => {
                        out.push(source.copy());
                        assert(list_view(out@) =~= held.push(source@));
                    },
                    None => {},
                }
                i = i + 1;
            }
            assert(all.take(i as int) =~= all);
        },
        None => {
            assert(list_view(out@) =~= seq![]);
        },
    }
    out
}

/// The catalog's answer to a call.
#[derive(Debug, PartialEq)]
pub enum Reply {
    /// The call failed.
    Failed,
    /// The answer to the sign-in: the session and the organization, where they
    /// could be read.
    Login { status: u32, session: Option<(String, String)> },
    /// The answer to the call for a JWT, where it could be read.
    Token { status: u32, token: Option<String> },
    /// The answer to a search.
    Search { status: u32, body: Vec<u8> },
}

/// What the catalog's answer says. A search answer is a document, where it
/// could be read.
pub enum ReplyView {
    Failed,
    Login { status: u32, session: Option<(Seq<char>, Seq<char>)> },
    Token { status: u32, token: Option<Seq<char>> },
    Search { status: u32, answer: Option<JsonView> },
}

impl View for Reply {
    type V = ReplyView;

    open spec fn view(&self) -> ReplyView {
        match *self {
            Reply::Failed => ReplyView::Failed,
            Reply::Login { status, session } => ReplyView::Login {
                status,
                session: match session {
                    Some((id, org)) => Some((id@, org@)),
                    None => None,
                },
            },
            Reply::Token { status, token } => ReplyView::Token {
                status,
                token: optional_text(token),
            },
            Reply::Search { status, body } => ReplyView::Search {
                status,
                answer: json_of_bytes(body@),
            },
        }
    }
}

// ---- steps ----

/// The identity of a schema asset.
#[derive(Debug, PartialEq)]
pub struct Identity {
    pub name: Option<String>,
    pub external_id: Option<String>,
}

/// What an identity says.
pub struct IdentityView {
    pub name: Option<Seq<char>>,
    pub external_id: Option<Seq<char>>,
}

impl View for Identity {
    type V = IdentityView;

    open spec fn view(&self) -> IdentityView {
        IdentityView {
            name: optional_text(self.name),
            external_id: optional_text(self.external_id),
        }
    }
}

/// The call whose answer is awaited, with what is known so far.
#[derive(Debug, PartialEq)]
pub enum Pending {
    Login,
    Token { org: String },
    Asset { auth: Auth },
    Columns { auth: Auth, identity: Identity },
    Links { auth: Auth, identity: Identity, columns: Vec<Json> },
    Terms { identity: Identity, columns: Vec<Json>, links: Vec<Link> },
}

/// What is known when an answer is awaited.
pub enum PendingView {
    Login,
    Token { org: Seq<char> },
    Asset { auth: AuthView },
    Columns { auth: AuthView, identity: IdentityView },
    Links { auth: AuthView, identity: IdentityView, columns: Seq<JsonView> },
    Terms { identity: IdentityView, columns: Seq<JsonView>, links: Seq<LinkView> },
}

impl View for Pending {
    type V = PendingView;

    open spec fn view(&self) -> PendingView {
        match *self {
            Pending::Login => PendingView::Login,
            Pending::Token { org } => PendingView::Token { org: org@ },
            Pending::Asset { auth } => PendingView::Asset { auth: auth@ },
            Pending::Columns { auth, identity } => PendingView::Columns {
                auth: auth@,
                identity: identity@,
            },
            Pending::Links { auth, identity, columns } => PendingView::Links {
                auth: auth@,
                identity: identity@,
                columns: list_view(columns@),
            },
            Pending::Terms { identity, columns, links } => PendingView::Terms {
                identity: identity@,
                columns: list_view(columns@),
                links: links_view(links@),
            },
        }
    }
}

/// What to do next.
#[derive(Debug, PartialEq)]
pub enum FetchStep {
    /// Perform the call and hand back its answer.
    Call { call: HttpCall, pending: Pending },
    /// The contract is fetched.
    Done { fields: Vec<ContractField>, identity: Identity },
    Failed(FetchError),
}

/// What is to do next.
pub enum StepView {
    Call { call: CallView, pending: PendingView },
    Done { fields: Seq<FieldView>, identity: IdentityView },
    Failed(FetchError),
}

impl View for FetchStep {
    type V = StepView;

    open spec fn view(&self) -> StepView {
        match *self {
            FetchStep::Call { call, pending } => StepView::Call { call: call@, pending: pending@ },
            FetchStep::Done { fields, identity } => StepView::Done {
                fields: fields_view(fields@),
                identity: identity@,
            },
            FetchStep::Failed(e) => StepView::Failed(e),
        }
    }
}

/// The first call: the sign-in.
pub open spec fn first_step(config: Config, elapsed: i64) -> StepView {
    match call_timeout(per_call_ms(config), elapsed) {
        Some(ms) => StepView::Call {
            call: login_call_of(config, ms),
            pending: PendingView::Login,
        },
        None => StepView::Failed(FetchError::Budget(Stage::Login)),
    }
}

/// The first call: the sign-in.
pub fn first_fetch_step(config: &Config, elapsed: i64) -> (r: FetchStep)
    requires
        CDGC_REFRESH_BUDGET_MS - elapsed <= i64::MAX,
    ensures
        r@ == first_step(*config, elapsed),
{
    match next_call_timeout(per_call_ms_of(config), elapsed) {
        Some(ms) => FetchStep::Call { call: login_call(config, ms), pending: Pending::Login },
        None => FetchStep::Failed(FetchError::Budget(Stage::Login)),
    }
}

/// The next search, if there is time left for it.
pub open spec fn search_step(
    config: Config,
    auth: AuthView,
    query: JsonView,
    elapsed: i64,
    pending: PendingView,
) -> StepView {
    match call_timeout(per_call_ms(config), elapsed) {
        Some(ms) => StepView::Call { call: search_call_of(auth, query, ms), pending },
        None => StepView::Failed(FetchError::Budget(Stage::Search)),
    }
}

/// After the sign-in: the call for a JWT.
pub open spec fn after_login(
    config: Config,
    status: u32,
    session: Option<(Seq<char>, Seq<char>)>,
    nonce: Seq<char>,
    elapsed: i64,
) -> StepView {
    if status >= 300 {
        StepView::Failed(FetchError::Status(Stage::Login, status))
    } else {
        match session {
            Some((session_id, org)) => match call_timeout(per_call_ms(config), elapsed) {
                Some(ms) => StepView::Call {
                    call: token_call_of(session_id, nonce, ms),
                    pending: PendingView::Token { org },
                },
                None => StepView::Failed(FetchError::Budget(Stage::Token)),
            },
            None => StepView::Failed(FetchError::Answer(Stage::Login)),
        }
    }
}

/// After the JWT: the search for the schema asset.
pub open spec fn after_token(
    config: Config,
    schema_id: Seq<char>,
    org: Seq<char>,
    status: u32,
    token: Option<Seq<char>>,
    elapsed: i64,
) -> StepView {
    if status >= 300 {
        StepView::Failed(FetchError::Status(Stage::Token, status))
    } else {
        match token {
            Some(token) => {
                let auth = AuthView { token, org };
                search_step(
                    config,
                    auth,
                    asset_query(schema_id),
                    elapsed,
                    PendingView::Asset { auth },
                )
            },
            None => StepView::Failed(FetchError::Answer(Stage::Token)),
        }
    }
}

/// The contract that the catalog describes.
pub open spec fn fetched_contract(
    config: Config,
    columns: Seq<JsonView>,
    links: Seq<LinkView>,
    terms: Seq<TermView>,
) -> Seq<FieldView> {
    contract_of(
        columns,
        links,
        terms,
        lowercase(text_or(config.sensitive_marker, "confidential"@)),
        levels_of(text_or(config.sensitive_levels, "confidential,restricted"@)),
    )
}

/// After a search, by what it found: the schema asset leads to its columns, the
/// columns to their links, the links to their terms, and the terms to the
/// contract. Without linked terms the contract is built at once.
pub open spec fn after_search(
    config: Config,
    pending: PendingView,
    found: Seq<JsonView>,
    elapsed: i64,
) -> StepView {
    match pending {
        PendingView::Asset { auth } => if found.len() == 0 {
            StepView::Failed(FetchError::AssetNotFound)
        } else {
            match text_member(found[0], "core.location"@) {
                Some(location) => search_step(
                    config,
                    auth,
                    columns_query(location),
                    elapsed,
                    PendingView::Columns {
                        auth,
                        identity: IdentityView {
                            name: text_member(found[0], "core.name"@),
                            external_id: text_member(found[0], "core.externalId"@),
                        },
                    },
                ),
                None => StepView::Failed(FetchError::NoLocation),
            }
        },
        PendingView::Columns { auth, identity } => if found.len() == 0 {
            StepView::Failed(FetchError::NoColumns)
        } else {
            search_step(
                config,
                auth,
                links_query(identities_of(found)),
                elapsed,
                PendingView::Links { auth, identity, columns: found },
            )
        },
        PendingView::Links { auth, identity, columns } => {
            let links = links_of(found);
            if linked_terms(links).len() == 0 {
                StepView::Done {
                    fields: fetched_contract(config, columns, links, seq![]),
                    identity,
                }
            } else {
                search_step(
                    config,
                    auth,
                    terms_search(linked_terms(links)),
                    elapsed,
                    PendingView::Terms { identity, columns, links },
                )
            }
        },
        PendingView::Terms { identity, columns, links } => StepView::Done {
            fields: fetched_contract(config, columns, links, terms_of(found)),
            identity,
        },
        _ => StepView::Failed(FetchError::Answer(stage_of(pending))),
    }
}

/// The kind of the call whose answer is awaited.
pub open spec fn stage_of(pending: PendingView) -> Stage {
    match pending {
        PendingView::Login => Stage::Login,
        PendingView::Token { .. } => Stage::Token,
        _ => Stage::Search,
    }
}

/// The answer is one to the call.
pub open spec fn answers_call(pending: PendingView, reply: ReplyView) -> bool {
    match reply {
        ReplyView::Failed => true,
        ReplyView::Login { .. } => stage_of(pending) == Stage::Login,
        ReplyView::Token { .. } => stage_of(pending) == Stage::Token,
        ReplyView::Search { .. } => stage_of(pending) == Stage::Search,
    }
}

/// What follows an answer.
pub open spec fn step_after(
    config: Config,
    schema_id: Seq<char>,
    pending: PendingView,
    reply: ReplyView,
    nonce: Seq<char>,
    elapsed: i64,
) -> StepView {
    match reply {
        ReplyView::Failed => StepView::Failed(FetchError::Call(stage_of(pending))),
        ReplyView::Login { status, session } => after_login(
            config,
            status,
            session,
            nonce,
            elapsed,
        ),
        ReplyView::Token { status, token } => after_token(
            config,
            schema_id,
            match pending {
                PendingView::Token { org } => org,
                _ => Seq::empty(),
            },
            status,
            token,
            elapsed,
        ),
        ReplyView::Search { status, answer } => if status >= 300 {
            StepView::Failed(FetchError::Status(Stage::Search, status))
        } else {
            match answer {
                Some(doc) => after_search(config, pending, found_in(doc), elapsed),
                None => StepView::Failed(FetchError::Answer(Stage::Search)),
            }
        },
    }
}

/// The next search, if there is time left for it.
fn next_search(
    config: &Config,
    auth: &Auth,
    query: Json,
    elapsed: i64,
    pending: Pending,
) -> (r: FetchStep)
    requires
        CDGC_REFRESH_BUDGET_MS - elapsed <= i64::MAX,
    ensures
        r@ == search_step(*config, auth@, query@, elapsed, pending@),
{
    match next_call_timeout(per_call_ms_of(config), elapsed) {
        Some(ms) => FetchStep::Call { call: search_call(auth, &query, ms), pending },
        None => FetchStep::Failed(FetchError::Budget(Stage::Search)),
    }
}

/// The contract that the catalog describes.
fn finish_contract(
    config: &Config,
    columns: &Vec<Json>,
    links: &Vec<Link>,
    terms: &Vec<Term>,
) -> (r: Vec<ContractField>)
    ensures
        fields_view(r@) == fetched_contract(
            *config,
            list_view(columns@),
            links_view(links@),
            terms_view(terms@),
        ),
{
    let marker = to_lowercase(setting_or(&config.sensitive_marker, "confidential"));
    let levels = sensitive_levels(setting_or(&config.sensitive_levels, "confidential,restricted"));
    build_contract(columns, links, terms, &marker, &levels)
}

/// A copy of a session.
fn copy_auth(auth: &Auth) -> (r: Auth)
    ensures
        r@ == auth@,
{
    Auth { token: auth.token.clone(), org: auth.org.clone() }
}

/// What follows a search, by what it found.
pub fn next_after_search(
    config: &Config,
    pending: Pending,
    found: Vec<Json>,
    elapsed: i64,
) -> (r: FetchStep)
    requires
        stage_of(pending@) == Stage::Search,
        CDGC_REFRESH_BUDGET_MS - elapsed <= i64::MAX,
    ensures
        r@ == after_search(*config, pending@, list_view(found@), elapsed),
{
    match pending {
        Pending::Asset { auth } => {
            if found.len() == 0 {
                return FetchStep::Failed(FetchError::AssetNotFound);
            }
            assert(list_view(found@)[0] == found@[0]@);
            match s(&found[0], "core.location") {
                Some(location) => {
                    let identity = Identity {
                        name: s(&found[0], "core.name"),
                        external_id: s(&found[0], "core.externalId"),
                    };
                    let session = copy_auth(&auth);
                    next_search(
                        config,
                        &session,
                        find_columns(location.as_str()),
                        elapsed,
                        Pending::Columns { auth, identity },
                    )
                },
                None => FetchStep::Failed(FetchError::NoLocation),
            }
        },
        Pending::Columns { auth, identity } => {
            if found.len() == 0 {
                return FetchStep::Failed(FetchError::NoColumns);
            }
            let query = find_links(&identities(&found));
            let session = copy_auth(&auth);
            next_search(
                config,
                &session,
                query,
                elapsed,
                Pending::Links { auth, identity, columns: found },
            )
        },
        Pending::Links { auth, identity, columns } => {
            let links = read_links(&found);
            let ids = term_ids(&links);
            if ids.len() == 0 {
                let terms: Vec<Term> = Vec::new();
                assert(terms_view(terms@) =~= seq![]);
                let fields = finish_contract(config, &columns, &links, &terms);
                FetchStep::Done { fields, identity }
            } else {
                next_search(
                    config,
                    &auth,
                    find_terms(&ids),
                    elapsed,
                    Pending::Terms { identity, columns, links },
                )
            }
        },
        Pending::Terms { identity, columns, links } => {
            let terms = read_terms(&found);
            let fields = finish_contract(config, &columns, &links, &terms);
            FetchStep::Done { fields, identity }
        },
        other => FetchStep::Failed(FetchError::Answer(awaited(&other))),
    }
}

/// The kind of the call whose answer is awaited.
fn awaited(pending: &Pending) -> (r: Stage)
    ensures
        r == stage_of(pending@),
{
    match pending {
        Pending::Login => Stage::Login,
        Pending::Token { .. } => Stage::Token,
        _ => Stage::Search,
    }
}

/// What follows an answer. `now` gives the nonce; `elapsed` is the time since
/// the fetch began, in milliseconds.
pub fn next_fetch_step(
    config: &Config,
    schema_id: &str,
    pending: Pending,
    reply: Reply,
    now: SystemTime,
    elapsed: i64,
) -> (r: FetchStep)
    requires
        answers_call(pending@, reply@),
        CDGC_REFRESH_BUDGET_MS - elapsed <= i64::MAX,
    ensures
        r@ == step_after(
            *config,
            schema_id@,
            pending@,
            reply@,
            nonce_of(epoch_nanos(now)),
            elapsed,
        ),
{
    match reply {
        Reply::Failed => FetchStep::Failed(FetchError::Call(awaited(&pending))),
        Reply::Login { status, session } => {
            if status >= 300 {
                return FetchStep::Failed(FetchError::Status(Stage::Login, status));
            }
            match session {
                Some((session_id, org)) => {
                    let nonce = nonce_from_time(now);
                    match next_call_timeout(per_call_ms_of(config), elapsed) {
                        Some(ms) => FetchStep::Call {
                            call: token_call(&session_id, &nonce, ms),
                            pending: Pending::Token { org },
                        },
                        None => FetchStep::Failed(FetchError::Budget(Stage::Token)),
                    }
                },
                None => FetchStep::Failed(FetchError::Answer(Stage::Login)),
            }
        },
        Reply::Token { status, token } => {
            if status >= 300 {
                return FetchStep::Failed(FetchError::Status(Stage::Token, status));
            }
            let org: String = match pending {
                Pending::Token { org } => org,
                _ => String::new(),
            };
            match token {
                Some(token) => {
                    let auth = Auth { token, org };
                    let session = copy_auth(&auth);
                    next_search(
                        config,
                        &session,
                        find_asset(schema_id),
                        elapsed,
                        Pending::Asset { auth },
                    )
                },
                None => FetchStep::Failed(FetchError::Answer(Stage::Token)),
            }
        },
        Reply::Search { status, body } => {
            if status >= 300 {
                return FetchStep::Failed(FetchError::Status(Stage::Search, status));
            }
            match Json::parse_bytes(body.as_slice()) {
                Some(answer) => next_after_search(config, pending, search_hits(&answer), elapsed),
                None => FetchStep::Failed(FetchError::Answer(Stage::Search)),
            }
        },
    }
}

/// The calls that a fetch may still need, the awaited one included.
pub open spec fn calls_left(step: StepView) -> nat {
    match step {
        StepView::Call { pending, .. } => pending_calls(pending),
        _ => 0,
    }
}

/// The calls that a fetch may still need when an answer is awaited, the awaited
/// one included.
pub open spec fn pending_calls(pending: PendingView) -> nat {
    match pending {
        PendingView::Login => 6,
        PendingView::Token { .. } => 5,
        PendingView::Asset { .. } => 4,
        PendingView::Columns { .. } => 3,
        PendingView::Links { .. } => 2,
        PendingView::Terms { .. } => 1,
    }
}

/// A fetch makes at most six calls: every answer brings it nearer to its end.
pub proof fn fetch_ends(
    config: Config,
    schema_id: Seq<char>,
    pending: PendingView,
    reply: ReplyView,
    nonce: Seq<char>,
    elapsed: i64,
)
    requires
        answers_call(pending, reply),
    ensures
        calls_left(first_step(config, elapsed)) <= 6,
        calls_left(step_after(config, schema_id, pending, reply, nonce, elapsed)) < pending_calls(
            pending,
        ),
{
}

/// No call outlasts the budget of a fetch: every call that is made has a
/// timeout that ends within it.
pub proof fn fetch_within_budget(
    config: Config,
    schema_id: Seq<char>,
    pending: PendingView,
    reply: ReplyView,
    nonce: Seq<char>,
    elapsed: i64,
)
    requires
        answers_call(pending, reply),
    ensures
        first_step(config, elapsed) matches StepView::Call { call, .. } ==> elapsed
            + call.timeout_ms <= CDGC_REFRESH_BUDGET_MS,
        step_after(config, schema_id, pending, reply, nonce, elapsed) matches StepView::Call {
            call,
            ..
        } ==> elapsed + call.timeout_ms <= CDGC_REFRESH_BUDGET_MS,
{
    timeout_within_budget(per_call_ms(config), elapsed);
}

} // verus!
