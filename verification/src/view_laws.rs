//! What the models of values hold: each part of a value as it is, and no other in
//! its place.

use crate::catalog::{links_view, terms_view, Link, Term};
use crate::cdgc::CachedContract;
use crate::conformance::{drifts_view, fields_view, ContractField, Decision, Drift};
use crate::envelope::{located_view, Place};
use crate::fetch::{
    headers_view, Auth, FetchError, FetchStep, HttpCall, Identity, Pending, PendingView, Reply,
    ReplyView, StepView,
};
use crate::guard::{guarded_view, sent_view, Guarded};
use crate::json::{
    json_of, json_of_bytes, list_view, node_view, optional_ref_view, optional_view, Json, JsonView,
    Node, Record,
};
use crate::records::records_view;
use crate::request::{optional_ctx, Ctx};
use crate::text::{optional_text, texts};
use vstd::prelude::*;

verus! {

/// Lists are modelled item by item.
pub proof fn lists_item_by_item(
    strings: Seq<String>,
    fields: Seq<ContractField>,
    drifts: Seq<Drift>,
    links: Seq<Link>,
    terms: Seq<Term>,
    docs: Seq<Json>,
    records: Seq<&Record>,
    headers: Seq<(String, String)>,
)
    ensures
        texts(strings).len() == strings.len(),
        forall|i: int| 0 <= i < strings.len() ==> #[trigger] texts(strings)[i] == strings[i]@,
        fields_view(fields).len() == fields.len(),
        forall|i: int| 0 <= i < fields.len() ==> #[trigger] fields_view(fields)[i] == fields[i]@,
        drifts_view(drifts).len() == drifts.len(),
        forall|i: int| 0 <= i < drifts.len() ==> #[trigger] drifts_view(drifts)[i] == drifts[i]@,
        links_view(links).len() == links.len(),
        forall|i: int| 0 <= i < links.len() ==> #[trigger] links_view(links)[i] == links[i]@,
        terms_view(terms).len() == terms.len(),
        forall|i: int| 0 <= i < terms.len() ==> #[trigger] terms_view(terms)[i] == terms[i]@,
        list_view(docs).len() == docs.len(),
        forall|i: int| 0 <= i < docs.len() ==> #[trigger] list_view(docs)[i] == docs[i]@,
        records_view(records).len() == records.len(),
        forall|i: int|
            0 <= i < records.len() ==> #[trigger] records_view(records)[i] == records[i]@,
        headers_view(headers).len() == headers.len(),
        forall|i: int|
            0 <= i < headers.len() ==> #[trigger] headers_view(headers)[i] == (
                headers[i].0@,
                headers[i].1@,
            ),
{
}

/// What may be absent is modelled as what is there, and as nothing where nothing
/// is there.
pub proof fn options_as_they_are(s: String, j: Json, c: Ctx, g: Guarded, d: Decision, p: Place)
    ensures
        optional_text(Some(s)) == Some(s@),
        optional_text(None) is None,
        optional_view(Some(j)) == Some(j@),
        optional_view(None) is None,
        optional_ref_view(Some(&j)) == Some(j@),
        optional_ref_view(None) is None,
        optional_ctx(Some(c)) matches Some(v) && v.asset_id == c.asset_id@ && v.rpc_id == c.rpc_id@,
        optional_ctx(None) is None,
        guarded_view(Some(g)) == Some((g.document@, g.decision@)),
        guarded_view(None) is None,
        sent_view(Some((s, d))) == Some((s@, d@)),
        sent_view(None) is None,
        located_view(Some((j, p))) == Some((j@, p)),
        located_view(None) is None,
{
}

/// Documents are modelled by kind.
pub proof fn documents_by_kind(
    b: bool,
    n: serde_json::Number,
    s: String,
    items: Vec<Json>,
    r: Record,
)
    ensures
        Json::Null@ == JsonView::Null,
        Json::Bool(b)@ == JsonView::Bool(b),
        Json::Number(n)@ == JsonView::Number(n),
        Json::Text(s)@ == JsonView::Text(s@),
        Json::List(items)@ matches JsonView::List(l) && l.len() == items@.len() && forall|i: int|
            0 <= i < l.len() ==> #[trigger] l[i] == items@[i]@,
        Json::Object(r)@ == JsonView::Object(r@),
{
}

/// One level of an outside document is modelled by kind.
pub proof fn outside_documents_by_kind(
    b: bool,
    n: serde_json::Number,
    s: String,
    items: Vec<serde_json::Value>,
    es: Vec<(String, serde_json::Value)>,
)
    ensures
        node_view(Node::Null) == JsonView::Null,
        node_view(Node::Bool(b)) == JsonView::Bool(b),
        node_view(Node::Number(n)) == JsonView::Number(n),
        node_view(Node::Text(s)) == JsonView::Text(s@),
        node_view(Node::List(items)) matches JsonView::List(l) && l.len() == items@.len()
            && forall|i: int| 0 <= i < l.len() ==> #[trigger] l[i] == json_of(items@[i]),
        node_view(Node::Object(es)) matches JsonView::Object(e) && e.len() == es@.len()
            && forall|i: int|
            0 <= i < e.len() ==> #[trigger] e[i] == (es@[i].0@, json_of(es@[i].1)),
{
}

/// Fields, drifts, decisions and contracts are modelled part by part.
pub proof fn contracts_part_by_part(f: ContractField, d: Drift, x: Decision, c: CachedContract)
    ensures
        f@.name == f.name@ && f@.required == f.required && f@.sensitive == f.sensitive,
        f@.ftype == optional_text(f.ftype) && f@.term == optional_text(f.term),
        d@.kind == d.kind && d@.field == d.field@,
        x@.reject == x.reject && x@.strip == x.strip@ && x@.inform == x.inform && x@.summary
            == x.summary@ && x@.logged == texts(x.logged@),
        c@.fields == fields_view(c.fields@) && c@.name == optional_text(c.name) && c@.external_id
            == optional_text(c.external_id) && c@.timestamp == c.timestamp,
{
}

/// What the catalog says and is asked is modelled part by part.
pub proof fn catalog_part_by_part(
    l: Link,
    t: Term,
    call: HttpCall,
    a: Auth,
    i: Identity,
    status: u32,
    pair: (String, String),
    token: Option<String>,
    body: Vec<u8>,
)
    ensures
        l@.column == l.column@ && l@.term == l.term@,
        t@.id == t.id@ && t@.name == optional_text(t.name) && t@.description == t.description@
            && t@.level == t.level@ && t@.is_cde == t.is_cde,
        call@.endpoint == call.endpoint && call@.post == call.post && call@.path == call.path@
            && call@.headers == headers_view(call.headers@) && call@.body == optional_text(
            call.body,
        ) && call@.timeout_ms == call.timeout_ms,
        a@.token == a.token@ && a@.org == a.org@,
        i@.name == optional_text(i.name) && i@.external_id == optional_text(i.external_id),
        Reply::Failed@ == ReplyView::Failed,
        (Reply::Login { status, session: Some(pair) })@ == (ReplyView::Login {
            status,
            session: Some((pair.0@, pair.1@)),
        }),
        (Reply::Login { status, session: None })@ == (ReplyView::Login { status, session: None }),
        (Reply::Token { status, token })@ == (ReplyView::Token {
            status,
            token: optional_text(token),
        }),
        (Reply::Search { status, body })@ == (ReplyView::Search {
            status,
            answer: json_of_bytes(body@),
        }),
{
}

/// The steps of a fetch are modelled part by part.
pub proof fn steps_part_by_part(
    org: String,
    auth: Auth,
    identity: Identity,
    columns: Vec<Json>,
    links: Vec<Link>,
    call: HttpCall,
    pending: Pending,
    fields: Vec<ContractField>,
    e: FetchError,
)
    ensures
        Pending::Login@ == PendingView::Login,
        (Pending::Token { org })@ == (PendingView::Token { org: org@ }),
        (Pending::Asset { auth })@ == (PendingView::Asset { auth: auth@ }),
        (Pending::Columns { auth, identity })@ == (PendingView::Columns {
            auth: auth@,
            identity: identity@,
        }),
        (Pending::Links { auth, identity, columns })@ == (PendingView::Links {
            auth: auth@,
            identity: identity@,
            columns: list_view(columns@),
        }),
        (Pending::Terms { identity, columns, links })@ == (PendingView::Terms {
            identity: identity@,
            columns: list_view(columns@),
            links: links_view(links@),
        }),
        (FetchStep::Call { call, pending })@ == (StepView::Call { call: call@, pending: pending@ }),
        (FetchStep::Done { fields, identity })@ == (StepView::Done {
            fields: fields_view(fields@),
            identity: identity@,
        }),
        FetchStep::Failed(e)@ == StepView::Failed(e),
{
}

} // verus!
