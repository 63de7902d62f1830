//! The guard: what a response becomes under its contract.

use crate::cdgc::{CachedContract, ContractView};
use crate::conformance::{decide, decision_of, Actions, Decision, DecisionView};
use crate::envelope::{
    document_of, frame, framed, locate, located, parse_rpc, write_back, written, Place,
};
use crate::json::{
    empty_object, json_text, number_from, reads_back, text_or_null, well_formed, with_member, Json,
    JsonView,
};
use crate::records::{
    all_drifts, analyze_records, records_at, records_snapshot, steps_of, strip_at, strip_records,
};
use crate::request::{Ctx, CtxView};
use crate::text::utf8_text;
use vstd::prelude::*;
use vstd::utf8::{decode_utf8, valid_utf8};

verus! {

/// JSON-RPC error code of a contract-conformance reject (server-defined range).
pub const RPC_CONTRACT_VIOLATION: i64 = -32052;

// ---- annotation ----

/// The outcome that a response that is not rejected reports: `repaired` where
/// fields are stripped, else `drift` where any drift is listed, else `ok`.
pub open spec fn status_of(d: DecisionView) -> Seq<char> {
    if d.strip != Set::<Seq<char>>::empty() {
        "repaired"@
    } else if d.summary.len() > 0 {
        "drift"@
    } else {
        "ok"@
    }
}

/// The outcome that a response that is not rejected reports.
pub fn status(dec: &Decision) -> (r: &'static str)
    ensures
        r@ == status_of(dec@),
{
    if !dec.strip.is_empty() {
        "repaired"
    } else if !dec.summary.as_str().is_empty() {
        "drift"
    } else {
        "ok"
    }
}

/// The annotation of a response: the outcome, the asset's identity and the
/// drifts.
pub open spec fn annotation(
    status: Seq<char>,
    asset_id: Seq<char>,
    cc: ContractView,
    drift: Seq<char>,
) -> JsonView {
    let a = with_member(empty_object(), "status"@, JsonView::Text(status));
    let b = with_member(a, "assetId"@, JsonView::Text(asset_id));
    let c = with_member(b, "name"@, text_or_null(cc.name));
    let d = with_member(c, "externalId"@, text_or_null(cc.external_id));
    let e = with_member(d, "drift"@, JsonView::Text(drift));
    with_member(e, "source"@, JsonView::Text("cdgc"@))
}

/// The annotation of a response.
fn annotate(status: &str, asset_id: &String, cc: &CachedContract, drift: &String) -> (r: Json)
    ensures
        r@ == annotation(status@, asset_id@, cc@, drift@),
{
    Json::object().with("status", Json::text(status)).with(
        "assetId",
        Json::text(asset_id.as_str()),
    ).with("name", Json::optional_text(&cc.name)).with(
        "externalId",
        Json::optional_text(&cc.external_id),
    ).with("drift", Json::text(drift.as_str())).with("source", Json::text("cdgc"))
}

// ---- rejecting ----

/// The message of a rejected response.
pub open spec fn violation_message(asset_id: Seq<char>, drift: Seq<char>) -> Seq<char> {
    "response violated the governed contract for asset "@ + asset_id + " ("@ + drift + ")"@
}

/// The error of a rejected response.
pub open spec fn violation(asset_id: Seq<char>, drift: Seq<char>) -> JsonView {
    let code = with_member(
        empty_object(),
        "code"@,
        JsonView::Number(number_from(RPC_CONTRACT_VIOLATION)),
    );
    with_member(code, "message"@, JsonView::Text(violation_message(asset_id, drift)))
}

/// What takes the place of a rejected response: a JSON-RPC error, or for a REST
/// API an error document with the annotation.
pub open spec fn rejection(
    place: Place,
    ctx: CtxView,
    cc: ContractView,
    drift: Seq<char>,
) -> JsonView {
    if place == Place::Rest {
        with_member(
            with_member(empty_object(), "error"@, violation(ctx.asset_id, drift)),
            "_contract"@,
            annotation("rejected"@, ctx.asset_id, cc, drift),
        )
    } else {
        with_member(
            with_member(
                with_member(empty_object(), "jsonrpc"@, JsonView::Text("2.0"@)),
                "id"@,
                ctx.rpc_id,
            ),
            "error"@,
            violation(ctx.asset_id, drift),
        )
    }
}

/// What takes the place of a rejected response.
pub fn reject(place: Place, ctx: &Ctx, cc: &CachedContract, drift: &String) -> (r: Json)
    ensures
        r@ == rejection(place, ctx@, cc@, drift@),
{
    let mut message: String = "response violated the governed contract for asset ".to_owned();
    message.append(ctx.asset_id.as_str());
    message.append(" (");
    message.append(drift.as_str());
    message.append(")");
    let error = Json::object().with("code", Json::integer(RPC_CONTRACT_VIOLATION)).with(
        "message",
        Json::Text(message),
    );
    if place == Place::Rest {
        Json::object().with("error", error).with(
            "_contract",
            annotate("rejected", &ctx.asset_id, cc, drift),
        )
    } else {
        Json::object().with("jsonrpc", Json::text("2.0")).with("id", ctx.rpc_id.copy()).with(
            "error",
            error,
        )
    }
}

// ---- repairing ----

/// The payload without the stripped fields, annotated with the outcome. Only an
/// object can carry the annotation.
pub open spec fn repaired(
    payload: JsonView,
    d: DecisionView,
    asset_id: Seq<char>,
    cc: ContractView,
    path: Seq<char>,
) -> JsonView {
    let kept = if d.strip != Set::<Seq<char>>::empty() {
        strip_at(payload, steps_of(path), d.strip)
    } else {
        payload
    };
    with_member(kept, "_contract"@, annotation(status_of(d), asset_id, cc, d.summary))
}

/// The payload without the stripped fields, annotated with the outcome.
pub fn repair(
    payload: Json,
    dec: &Decision,
    asset_id: &String,
    cc: &CachedContract,
    records_path: &str,
) -> (r: Json)
    ensures
        r@ == repaired(payload@, dec@, asset_id@, cc@, records_path@),
{
    let note = annotate(status(dec), asset_id, cc, &dec.summary);
    let kept = if dec.strip.is_empty() {
        payload
    } else {
        strip_records(payload, records_path, &dec.strip)
    };
    kept.with("_contract", note)
}

// ---- the response ----

/// What the guard makes of a response.
#[derive(Debug, PartialEq)]
pub struct Guarded {
    /// What is sent in place of the response.
    pub document: Json,
    /// Why.
    pub decision: Decision,
}

/// What the guard makes of a response document; `None` where the response
/// passes as it is.
pub open spec fn guarded(
    rpc: JsonView,
    is_sse: bool,
    ctx: CtxView,
    cc: ContractView,
    actions: Actions,
    path: Seq<char>,
) -> Option<(JsonView, DecisionView)> {
    match located(rpc, is_sse) {
        Some((payload, place)) => {
            let records = records_at(payload, path);
            let d = decision_of(all_drifts(records, cc.fields), actions);
            if cc.fields.len() == 0 || records.len() == 0 {
                None
            } else if d.reject {
                Some((rejection(place, ctx, cc, d.summary), d))
            } else {
                Some((written(rpc, place, repaired(payload, d, ctx.asset_id, cc, path)), d))
            }
        },
        None => None,
    }
}

/// What a guarded response holds.
pub open spec fn guarded_view(o: Option<Guarded>) -> Option<(JsonView, DecisionView)> {
    match o {
        Some(g) => Some((g.document@, g.decision@)),
        None => None,
    }
}

/// Checks the records of a response document against the contract and acts on
/// their drifts: any reject withholds the response, else the marked fields are
/// stripped and the payload is annotated. A response without governed records,
/// or under a contract without fields, passes.
pub fn guard_document(
    rpc: Json,
    is_sse: bool,
    ctx: &Ctx,
    cc: &CachedContract,
    actions: &Actions,
    records_path: &str,
) -> (r: Option<Guarded>)
    ensures
        guarded_view(r) == guarded(rpc@, is_sse, ctx@, cc@, *actions, records_path@),
{
    if cc.fields.len() == 0 {
        return None;
    }
    let (payload, place) = match locate(&rpc, is_sse) {
        Some(found) => found,
        None => {
            return None;
        },
    };
    let records = records_snapshot(&payload, records_path);
    if records.len() == 0 {
        return None;
    }
    let drifts = analyze_records(&records, cc.fields.as_slice());
    let decision = decide(drifts.as_slice(), actions);
    if decision.reject {
        let document = reject(place, ctx, cc, &decision.summary);
        return Some(Guarded { document, decision });
    }
    let payload = repair(payload, &decision, &ctx.asset_id, cc, records_path);
    let document = write_back(rpc, place, payload);
    Some(Guarded { document, decision })
}

/// What the guard sends in place of a response text, and why; `None` where the
/// response passes as it is.
pub open spec fn guarded_text(
    text: Seq<char>,
    is_sse: bool,
    ctx: CtxView,
    cc: ContractView,
    actions: Actions,
    path: Seq<char>,
) -> Option<(Seq<char>, DecisionView)> {
    match document_of(text, is_sse) {
        Some(rpc) => match guarded(rpc, is_sse, ctx, cc, actions, path) {
            Some((document, d)) => Some((framed(json_text(document), is_sse), d)),
            None => None,
        },
        None => None,
    }
}

/// What is sent in place of a response, and why.
pub open spec fn sent_view(o: Option<(String, Decision)>) -> Option<(Seq<char>, DecisionView)> {
    match o {
        Some((body, d)) => Some((body@, d@)),
        None => None,
    }
}

/// Guards a response body. `None` means that the response passes as it is: the
/// body is no text, or no document, or holds no governed record. What is sent
/// reads as the guarded document. The document of a response is well-formed.
pub fn guard_body(
    body: Vec<u8>,
    is_sse: bool,
    ctx: &Ctx,
    cc: &CachedContract,
    actions: &Actions,
    records_path: &str,
) -> (r: Option<(String, Decision)>)
    ensures
        sent_view(r) == if valid_utf8(body@) {
            guarded_text(decode_utf8(body@), is_sse, ctx@, cc@, *actions, records_path@)
        } else {
            None
        },
        valid_utf8(body@) && document_of(decode_utf8(body@), is_sse) is Some ==> well_formed(
            document_of(decode_utf8(body@), is_sse)->0,
        ),
        r matches Some((sent, _)) ==> (guarded(
            document_of(decode_utf8(body@), is_sse)->0,
            is_sse,
            ctx@,
            cc@,
            *actions,
            records_path@,
        ) matches Some((document, _)) && (reads_back(document) ==> document_of(sent@, is_sse)
            == Some(document))),
{
    let text = match utf8_text(body) {
        Some(t) => t,
        None => {
            return None;
        },
    };
    let rpc = match parse_rpc(text.as_str(), is_sse) {
        Some(doc) => doc,
        None => {
            return None;
        },
    };
    match guard_document(rpc, is_sse, ctx, cc, actions, records_path) {
        Some(g) => Some((frame(&g.document, is_sse), g.decision)),
        None => None,
    }
}

} // verus!
