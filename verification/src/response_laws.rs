//! What a guarded response is, said of the documents that are read and sent.

use crate::cdgc::ContractView;
use crate::conformance::{
    action_for, decision_of, record_drifts, Action, Actions, DriftKind, DriftView, FieldView,
};
use crate::decision_laws::decision_by_kind_and_action;
use crate::envelope::{
    document_of, embedded, first_document, first_embedding, first_text_item, framed, is_envelope,
    is_text_item, line_document, located, stream_of, written, Place,
};
use crate::guard::{
    annotation, guarded, guarded_text, rejection, repaired, status_of, violation, violation_message,
    RPC_CONTRACT_VIOLATION,
};
use crate::json::{
    empty_object, json_of_text, json_text, list_member, member, members_well_formed, number_from,
    text_member, text_or_null, well_formed, with_member, Entries, JsonView,
};
use crate::laws::{
    annotation_says, first_embedding_at, first_embedding_is_first, in_either, one_piece,
    pieces_of_two, repaired_payload_is_annotated, strip_keeps_well_formed, with_member_law,
};
use crate::records::{all_drifts, at_path, records_in, steps_of, strip_at};
use crate::request::CtxView;
use crate::text::{joined, matches_at, occurs, pieces, trimmed, trimmed_start};
use vstd::prelude::*;

verus! {

/// The keys of an envelope and its result are different texts.
proof fn envelope_keys_differ()
    ensures
        "jsonrpc"@ != "result"@,
        "id"@ != "result"@,
        "content"@ != "structuredContent"@,
        "text"@ != "type"@,
{
    reveal_strlit("jsonrpc");
    reveal_strlit("result");
    reveal_strlit("id");
    reveal_strlit("content");
    reveal_strlit("structuredContent");
    reveal_strlit("text");
    reveal_strlit("type");
    assert("jsonrpc"@.len() == 7 && "result"@.len() == 6 && "id"@.len() == 2);
    assert("content"@.len() == 7 && "structuredContent"@.len() == 17);
    assert("text"@[1] != "type"@[1]);
}

// ---- writing back ----

/// The first text item, found by its type.
proof fn first_text_item_is_first(items: Seq<JsonView>, from: int)
    requires
        0 <= from <= items.len(),
    ensures
        match first_text_item(items, from) {
            Some(i) => from <= i < items.len() && is_text_item(items[i]) && forall|k: int|
                from <= k < i ==> !is_text_item(#[trigger] items[k]),
            None => forall|k: int| from <= k < items.len() ==> !is_text_item(#[trigger] items[k]),
        },
    decreases items.len() - from,
{
    if from < items.len() && !is_text_item(items[from]) {
        first_text_item_is_first(items, from + 1);
    }
}

/// A payload that is written back as structured content stands there; the first
/// content item of type `text`, counted from the very first item, has the printed
/// payload as its text, so that nothing of what was there before is left in it;
/// and everything else is as it was: the item's other members, the other items,
/// the result's other members and the envelope's.
pub proof fn structured_content_is_mirrored(rpc: JsonView, payload: JsonView)
    requires
        well_formed(rpc),
        member(rpc, "result"@) matches Some(JsonView::Object(_)),
    ensures
        ({
            let result = member(rpc, "result"@)->0;
            let sent = written(rpc, Place::Structured, payload);
            let now = member(sent, "result"@)->0;
            &&& member(sent, "result"@) is Some
            &&& member(now, "structuredContent"@) == Some(payload)
            &&& forall|q: Seq<char>|
                q != "result"@ ==> #[trigger] member(sent, q) == member(rpc, q)
            &&& forall|q: Seq<char>|
                q != "structuredContent"@ && q != "content"@ ==> #[trigger] member(now, q)
                    == member(result, q)
            &&& match member(result, "content"@) {
                Some(JsonView::List(items)) => {
                    &&& member(now, "content"@) matches Some(JsonView::List(after))
                        && after.len() == items.len() && (forall|i: int|
                        0 <= i < items.len() && member(#[trigger] items[i], "type"@) == Some(
                            JsonView::Text("text"@),
                        ) && (forall|k: int|
                            0 <= k < i ==> member(#[trigger] items[k], "type"@) != Some(
                                JsonView::Text("text"@),
                            )) ==> member(after[i], "text"@) == Some(
                            JsonView::Text(json_text(payload)),
                        ) && (forall|q: Seq<char>|
                            q != "text"@ ==> #[trigger] member(after[i], q) == member(items[i], q))
                            && (forall|k: int|
                            0 <= k < items.len() && k != i ==> #[trigger] after[k] == items[k]))
                        && ((forall|k: int|
                        0 <= k < items.len() ==> member(#[trigger] items[k], "type"@) != Some(
                            JsonView::Text("text"@),
                        )) ==> after == items)
                },
                other => member(now, "content"@) == other,
            }
        }),
{
    envelope_keys_differ();
    let result = member(rpc, "result"@)->0;
    members_well_formed(rpc, "result"@);
    let changed = with_member(result, "structuredContent"@, payload);
    with_member_law(result, "structuredContent"@, payload);
    assert(member(changed, "content"@) == member(result, "content"@));
    let text = JsonView::Text(json_text(payload));
    match member(result, "content"@) {
        Some(JsonView::List(items)) => {
            members_well_formed(result, "content"@);
            first_text_item_is_first(items, 0);
            assert(list_member(changed, "content"@) == Some(items));
            match first_text_item(items, 0) {
                Some(i) => {
                    assert(well_formed(items[i]));
                    assert(items[i] is Object);
                    with_member_law(items[i], "text"@, text);
                    let after = items.update(i, with_member(items[i], "text"@, text));
                    with_member_law(changed, "content"@, JsonView::List(after));
                    let full = with_member(changed, "content"@, JsonView::List(after));
                    with_member_law(rpc, "result"@, full);
                    assert(member(written(rpc, Place::Structured, payload), "result"@) == Some(
                        full,
                    ));
                    assert forall|k: int|
                        0 <= k < items.len() && member(#[trigger] items[k], "type"@) == Some(
                            JsonView::Text("text"@),
                        ) && (forall|l: int|
                            0 <= l < k ==> member(#[trigger] items[l], "type"@) != Some(
                                JsonView::Text("text"@),
                            )) implies k == i by {
                        assert(is_text_item(items[k]));
                        assert(is_text_item(items[i]));
                        if i < k {
                            assert(member(items[i], "type"@) == Some(JsonView::Text("text"@)));
                        }
                    }
                },
                None => {
                    with_member_law(rpc, "result"@, changed);
                    assert forall|k: int| 0 <= k < items.len() implies member(
                        #[trigger] items[k],
                        "type"@,
                    ) != Some(JsonView::Text("text"@)) by {
                        assert(!is_text_item(items[k]));
                    }
                },
            }
        },
        _ => {
            assert(list_member(changed, "content"@) is None);
            with_member_law(rpc, "result"@, changed);
        },
    }
}

/// A payload that is written back into content item `i` is its text in print, and
/// everything else is as it was. Without such an item that has a text, nothing
/// changes; and as the response itself the payload is all that is sent.
pub proof fn embedded_content_is_replaced(rpc: JsonView, payload: JsonView, i: usize)
    requires
        well_formed(rpc),
    ensures
        written(rpc, Place::Rest, payload) == payload,
        ({
            let sent = written(rpc, Place::Content(i), payload);
            match member(rpc, "result"@) {
                Some(result) => match member(result, "content"@) {
                    Some(JsonView::List(items)) => if i < items.len() && member(
                        items[i as int],
                        "text"@,
                    ) is Some {
                        &&& forall|q: Seq<char>|
                            q != "result"@ ==> #[trigger] member(sent, q) == member(rpc, q)
                        &&& member(sent, "result"@) matches Some(now) && (forall|q: Seq<char>|
                            q != "content"@ ==> #[trigger] member(now, q) == member(result, q)) && (
                        member(now, "content"@) matches Some(JsonView::List(after))
                            && after.len() == items.len() && member(after[i as int], "text"@)
                            == Some(JsonView::Text(json_text(payload))) && (forall|q: Seq<char>|
                            q != "text"@ ==> #[trigger] member(after[i as int], q) == member(
                                items[i as int],
                                q,
                            )) && forall|k: int|
                            0 <= k < items.len() && k != i ==> #[trigger] after[k] == items[k])
                    } else {
                        sent == rpc
                    },
                    _ => sent == rpc,
                },
                None => sent == rpc,
            }
        }),
{
    match member(rpc, "result"@) {
        Some(result) => {
            members_well_formed(rpc, "result"@);
            match member(result, "content"@) {
                Some(JsonView::List(items)) => {
                    assert(list_member(result, "content"@) == Some(items));
                    if i < items.len() && member(items[i as int], "text"@) is Some {
                        members_well_formed(result, "content"@);
                        let item = items[i as int];
                        assert(well_formed(item));
                        let text = JsonView::Text(json_text(payload));
                        with_member_law(item, "text"@, text);
                        let after = items.update(i as int, with_member(item, "text"@, text));
                        with_member_law(result, "content"@, JsonView::List(after));
                        with_member_law(
                            rpc,
                            "result"@,
                            with_member(result, "content"@, JsonView::List(after)),
                        );
                    }
                },
                _ => {
                    assert(list_member(result, "content"@) is None);
                },
            }
        },
        None => {},
    }
}

// ---- finding the payload ----

/// A document is taken for an envelope where it came as an event, names its
/// JSON-RPC version, or has both a result and an id; any other document is the
/// payload. Of an envelope the payload is the structured content of its result,
/// whatever value that is; an envelope without a result has none.
pub proof fn payload_of_an_envelope(rpc: JsonView, is_sse: bool)
    ensures
        ({
            let envelope = is_sse || member(rpc, "jsonrpc"@) is Some || (member(rpc, "result"@)
                is Some && member(rpc, "id"@) is Some);
            &&& is_envelope(rpc, is_sse) == envelope
            &&& !envelope ==> located(rpc, is_sse) == Some((rpc, Place::Rest))
            &&& envelope && member(rpc, "result"@) is None ==> located(rpc, is_sse) is None
            &&& envelope ==> (member(rpc, "result"@) matches Some(result) ==> (member(
                result,
                "structuredContent"@,
            ) matches Some(payload) ==> located(rpc, is_sse) == Some((payload, Place::Structured))))
        }),
{
}

/// Without structured content the payload is what the first text item embeds that
/// embeds a document, counted from the very first item; a result without such an
/// item has no payload.
pub proof fn payload_in_a_text_item(rpc: JsonView, is_sse: bool, items: Seq<JsonView>)
    requires
        is_sse || member(rpc, "jsonrpc"@) is Some || member(rpc, "id"@) is Some,
        member(rpc, "result"@) matches Some(result) && member(result, "structuredContent"@) is None
            && member(result, "content"@) == Some(JsonView::List(items)),
    ensures
        forall|i: int, t: Seq<char>|
            #![trigger items[i], json_of_text(t)]
            0 <= i < items.len() && member(items[i], "type"@) == Some(JsonView::Text("text"@))
                && member(items[i], "text"@) == Some(JsonView::Text(t)) && json_of_text(t) is Some
                && (forall|k: int, u: Seq<char>|
                #![trigger items[k], json_of_text(u)]
                0 <= k < i && member(items[k], "type"@) == Some(JsonView::Text("text"@)) && member(
                    items[k],
                    "text"@,
                ) == Some(JsonView::Text(u)) ==> json_of_text(u) is None) ==> located(rpc, is_sse)
                == Some((json_of_text(t)->0, Place::Content(i as usize))),
        (forall|k: int, u: Seq<char>|
            #![trigger items[k], json_of_text(u)]
            0 <= k < items.len() && member(items[k], "type"@) == Some(JsonView::Text("text"@))
                && member(items[k], "text"@) == Some(JsonView::Text(u)) ==> json_of_text(u)
                is None) ==> located(rpc, is_sse) is None,
{
    let result = member(rpc, "result"@)->0;
    assert(list_member(result, "content"@) == Some(items));
    assert forall|i: int, t: Seq<char>|
        #![trigger items[i], json_of_text(t)]
        0 <= i < items.len() && member(items[i], "type"@) == Some(JsonView::Text("text"@))
            && member(items[i], "text"@) == Some(JsonView::Text(t)) && json_of_text(t) is Some && (
        forall|k: int, u: Seq<char>|
            #![trigger items[k], json_of_text(u)]
            0 <= k < i && member(items[k], "type"@) == Some(JsonView::Text("text"@)) && member(
                items[k],
                "text"@,
            ) == Some(JsonView::Text(u)) ==> json_of_text(u) is None) implies located(rpc, is_sse)
        == Some((json_of_text(t)->0, Place::Content(i as usize))) by {
        assert forall|k: int| 0 <= k < i implies embedded(#[trigger] items[k]) is None by {
            match text_member(items[k], "text"@) {
                Some(u) => {
                    if is_text_item(items[k]) {
                        assert(json_of_text(u) is None);
                    }
                },
                None => {},
            }
        }
        assert(embedded(items[i]) == json_of_text(t));
        first_embedding_at(items, 0, i);
    }
    if first_embedding(items, 0) is Some {
        first_embedding_is_first(items, 0);
        let i = (first_embedding(items, 0)->0).0;
        let t = text_member(items[i], "text"@)->0;
        assert(json_of_text(t) is Some);
        assert(member(items[i], "type"@) == Some(JsonView::Text("text"@)));
        assert(member(items[i], "text"@) == Some(JsonView::Text(t)));
    }
}

/// A result whose content is no list, and that has no structured content, has no
/// payload.
pub proof fn no_payload_without_content(rpc: JsonView, is_sse: bool)
    requires
        is_sse || member(rpc, "jsonrpc"@) is Some || member(rpc, "id"@) is Some,
        member(rpc, "result"@) matches Some(result) && member(result, "structuredContent"@) is None
            && !(member(result, "content"@) matches Some(JsonView::List(_))),
    ensures
        located(rpc, is_sse) is None,
{
    assert(list_member(member(rpc, "result"@)->0, "content"@) is None);
}

// ---- reading and framing ----

/// A response is an event stream where its type names one, else a document where
/// its type names JSON, else it is left alone.
pub proof fn stream_by_content_type(t: Seq<char>)
    ensures
        occurs(t, "event-stream"@) ==> stream_of(t) == Some(true),
        !occurs(t, "event-stream"@) && occurs(t, "json"@) ==> stream_of(t) == Some(false),
        !occurs(t, "event-stream"@) && !occurs(t, "json"@) ==> stream_of(t) is None,
{
}

/// The lines of a text are found again.
proof fn lines_are_found_again(lines: Seq<Seq<char>>, sep: char)
    requires
        lines.len() > 0,
        forall|i: int| 0 <= i < lines.len() ==> !(#[trigger] lines[i]).contains(sep),
    ensures
        pieces(joined(lines, sep), sep) == lines,
    decreases lines.len(),
{
    let last = lines.last();
    assert(last == lines[lines.len() - 1]);
    one_piece(last, sep);
    if lines.len() == 1 {
        assert(lines =~= seq![last]);
    } else {
        let head = lines.drop_last();
        assert forall|i: int| 0 <= i < head.len() implies !(#[trigger] head[i]).contains(sep) by {
            assert(!lines[i].contains(sep));
        }
        lines_are_found_again(head, sep);
        pieces_of_two(joined(head, sep), last, sep);
        assert(head + seq![last] =~= lines);
    }
}

/// Reading lines one by one: the first line with a document decides.
proof fn first_document_at(lines: Seq<Seq<char>>, i: int)
    requires
        0 <= i <= lines.len(),
        forall|k: int| 0 <= k < i ==> line_document(#[trigger] lines[k]) is None,
        i < lines.len() ==> line_document(lines[i]) is Some,
    ensures
        first_document(lines) == (if i < lines.len() {
            line_document(lines[i])
        } else {
            None
        }),
    decreases i,
{
    if i > 0 {
        assert(line_document(lines[0]) is None);
        let rest = lines.drop_first();
        assert forall|k: int| 0 <= k < i - 1 implies line_document(#[trigger] rest[k]) is None by {
            assert(line_document(lines[k + 1]) is None);
        }
        first_document_at(rest, i - 1);
    }
}

/// What a line of an event stream holds.
proof fn line_holds(line: Seq<char>)
    ensures
        forall|r: Seq<char>|
            trimmed_start(line) == #[trigger] ("data:"@ + r) ==> line_document(line)
                == json_of_text(trimmed(r)),
        line_document(line) is Some ==> exists|r: Seq<char>|
            trimmed_start(line) == #[trigger] ("data:"@ + r) && json_of_text(trimmed(r)) is Some,
{
    let s = trimmed_start(line);
    assert forall|r: Seq<char>| s == #[trigger] ("data:"@ + r) implies line_document(line)
        == json_of_text(trimmed(r)) by {
        assert(s.subrange(0, "data:"@.len() as int) =~= "data:"@);
        assert(matches_at(s, "data:"@, 0));
        assert(s.skip("data:"@.len() as int) =~= r);
    }
    if line_document(line) is Some {
        let r = s.skip("data:"@.len() as int);
        assert(s =~= "data:"@ + r) by {
            assert(s.subrange(0, "data:"@.len() as int) == "data:"@);
            assert(s =~= s.subrange(0, "data:"@.len() as int) + r);
        }
    }
}

/// The document of an event stream is that of its first line, counted from the
/// very first line, that begins with `data:` after white space and holds a
/// document; a stream without such a line has none.
pub proof fn first_data_line_is_read(lines: Seq<Seq<char>>, i: int, r: Seq<char>)
    requires
        lines.len() > 0,
        forall|k: int| 0 <= k < lines.len() ==> !(#[trigger] lines[k]).contains('\n'),
        0 <= i <= lines.len(),
        forall|k: int, u: Seq<char>|
            #![trigger lines[k], ("data:"@ + u)]
            0 <= k < i && trimmed_start(lines[k]) == "data:"@ + u ==> json_of_text(trimmed(u)) is None,
        i < lines.len() ==> trimmed_start(lines[i]) == "data:"@ + r && json_of_text(trimmed(r))
            is Some,
    ensures
        document_of(joined(lines, '\n'), true) == (if i < lines.len() {
            json_of_text(trimmed(r))
        } else {
            None
        }),
{
    lines_are_found_again(lines, '\n');
    assert forall|k: int| 0 <= k < i implies line_document(#[trigger] lines[k]) is None by {
        line_holds(lines[k]);
        if line_document(lines[k]) is Some {
            let u = choose|u: Seq<char>|
                trimmed_start(lines[k]) == #[trigger] ("data:"@ + u) && json_of_text(trimmed(u))
                    is Some;
            assert(json_of_text(trimmed(u)) is None);
        }
    }
    if i < lines.len() {
        line_holds(lines[i]);
        assert(trimmed_start(lines[i]) == "data:"@ + r);
    }
    first_document_at(lines, i);
}

/// A text is sent as one message event or as it is.
pub proof fn framing_is_exact(text: Seq<char>)
    ensures
        framed(text, true) == "event: message\ndata: "@ + text + "\n\n"@,
        framed(text, false) == text,
        document_of(text, false) == json_of_text(text),
{
}

// ---- rejecting ----

/// A rejected response says the code and the message and nothing else: under its
/// error there are only these two, and beside it only the version and the id of
/// the request, or for a REST API the annotation.
pub proof fn rejection_says_nothing_else(
    place: Place,
    ctx: CtxView,
    cc: ContractView,
    drift: Seq<char>,
    q: Seq<char>,
)
    ensures
        ({
            let sent = rejection(place, ctx, cc, drift);
            let error = member(sent, "error"@)->0;
            &&& member(sent, "error"@) is Some
            &&& member(error, "code"@) == Some(
                JsonView::Number(number_from(RPC_CONTRACT_VIOLATION)),
            )
            &&& RPC_CONTRACT_VIOLATION == -32052
            &&& member(error, "message"@) == Some(
                JsonView::Text(
                    "response violated the governed contract for asset "@ + ctx.asset_id + " ("@
                        + drift + ")"@,
                ),
            )
            &&& q != "code"@ && q != "message"@ ==> member(error, q) is None
            &&& place != Place::Rest ==> member(sent, "jsonrpc"@) == Some(JsonView::Text("2.0"@))
                && member(sent, "id"@) == Some(ctx.rpc_id) && (q != "error"@ && q != "jsonrpc"@ && q
                != "id"@ ==> member(sent, q) is None)
            &&& place == Place::Rest ==> (member(sent, "_contract"@) matches Some(note) && member(
                note,
                "status"@,
            ) == Some(JsonView::Text("rejected"@)) && member(note, "drift"@) == Some(
                JsonView::Text(drift),
            )) && (q != "error"@ && q != "_contract"@ ==> member(sent, q) is None)
        }),
{
    reveal_strlit("code");
    reveal_strlit("message");
    reveal_strlit("error");
    reveal_strlit("jsonrpc");
    reveal_strlit("id");
    reveal_strlit("_contract");
    assert("code"@.len() == 4 && "message"@.len() == 7 && "error"@.len() == 5 && "jsonrpc"@.len()
        == 7 && "id"@.len() == 2 && "_contract"@.len() == 9);
    let code = JsonView::Number(number_from(RPC_CONTRACT_VIOLATION));
    let message = JsonView::Text(violation_message(ctx.asset_id, drift));
    let with_code = with_member(empty_object(), "code"@, code);
    with_member_law(empty_object(), "code"@, code);
    with_member_law(with_code, "message"@, message);
    let error = violation(ctx.asset_id, drift);
    let note = annotation("rejected"@, ctx.asset_id, cc, drift);
    annotation_says("rejected"@, ctx.asset_id, cc, drift);
    with_member_law(empty_object(), "error"@, error);
    with_member_law(with_member(empty_object(), "error"@, error), "_contract"@, note);
    let head = with_member(empty_object(), "jsonrpc"@, JsonView::Text("2.0"@));
    with_member_law(empty_object(), "jsonrpc"@, JsonView::Text("2.0"@));
    with_member_law(head, "id"@, ctx.rpc_id);
    with_member_law(with_member(head, "id"@, ctx.rpc_id), "error"@, error);
    assert(member(empty_object(), q) is None);
}

/// An annotation says its six things and nothing else.
pub proof fn annotation_says_nothing_else(
    status: Seq<char>,
    asset_id: Seq<char>,
    cc: ContractView,
    drift: Seq<char>,
    q: Seq<char>,
)
    requires
        q != "status"@ && q != "assetId"@ && q != "name"@ && q != "externalId"@ && q != "drift"@
            && q != "source"@,
    ensures
        member(annotation(status, asset_id, cc, drift), q) is None,
{
    let a = with_member(empty_object(), "status"@, JsonView::Text(status));
    let b = with_member(a, "assetId"@, JsonView::Text(asset_id));
    let c = with_member(b, "name"@, text_or_null(cc.name));
    let d = with_member(c, "externalId"@, text_or_null(cc.external_id));
    let e = with_member(d, "drift"@, JsonView::Text(drift));
    with_member_law(empty_object(), "status"@, JsonView::Text(status));
    with_member_law(a, "assetId"@, JsonView::Text(asset_id));
    with_member_law(b, "name"@, text_or_null(cc.name));
    with_member_law(c, "externalId"@, text_or_null(cc.external_id));
    with_member_law(d, "drift"@, JsonView::Text(drift));
    with_member_law(e, "source"@, JsonView::Text("cdgc"@));
    assert(member(empty_object(), q) is None);
}

// ---- the whole response ----

/// A response text is guarded as its document is, and what is sent is the guarded
/// document in print, framed as the response was.
pub proof fn text_is_guarded_as_its_document(
    text: Seq<char>,
    is_sse: bool,
    ctx: CtxView,
    cc: ContractView,
    actions: Actions,
    path: Seq<char>,
)
    ensures
        document_of(text, is_sse) is None ==> guarded_text(text, is_sse, ctx, cc, actions, path)
            is None,
        document_of(text, is_sse) matches Some(rpc) ==> (guarded(
            rpc,
            is_sse,
            ctx,
            cc,
            actions,
            path,
        ) is None ==> guarded_text(text, is_sse, ctx, cc, actions, path) is None) && (guarded(
            rpc,
            is_sse,
            ctx,
            cc,
            actions,
            path,
        ) matches Some((document, d)) ==> guarded_text(text, is_sse, ctx, cc, actions, path)
            == Some(
            (
                if is_sse {
                    "event: message\ndata: "@ + json_text(document) + "\n\n"@
                } else {
                    json_text(document)
                },
                d,
            ),
        )),
{
}

/// A response passes exactly where it has no payload, its contract no fields, or
/// its payload no record at the path.
pub proof fn response_passes(
    rpc: JsonView,
    is_sse: bool,
    ctx: CtxView,
    cc: ContractView,
    actions: Actions,
    path: Seq<char>,
)
    ensures
        guarded(rpc, is_sse, ctx, cc, actions, path) is None <==> (match located(rpc, is_sse) {
            Some((payload, _)) => cc.fields.len() == 0 || records_in(
                at_path(payload, steps_of(path)),
            ).len() == 0,
            None => true,
        }),
{
}

/// A drift of any record is one of the response.
proof fn drift_of_a_record(
    records: Seq<Entries>,
    fields: Seq<FieldView>,
    d: DriftView,
)
    ensures
        all_drifts(records, fields).contains(d) <==> exists|i: int|
            0 <= i < records.len() && record_drifts(#[trigger] records[i], fields).contains(d),
    decreases records.len(),
{
    if records.len() > 0 {
        let head = records.drop_last();
        drift_of_a_record(head, fields, d);
        in_either(all_drifts(head, fields), record_drifts(records.last(), fields), d);
        assert(records[records.len() - 1] == records.last());
        if exists|i: int|
            0 <= i < head.len() && record_drifts(#[trigger] head[i], fields).contains(d) {
            let i = choose|i: int|
                0 <= i < head.len() && record_drifts(#[trigger] head[i], fields).contains(d);
            assert(record_drifts(records[i], fields).contains(d));
        }
        if exists|i: int|
            0 <= i < records.len() && record_drifts(#[trigger] records[i], fields).contains(d) {
            let i = choose|i: int|
                0 <= i < records.len() && record_drifts(#[trigger] records[i], fields).contains(d);
            if i < head.len() {
                assert(record_drifts(head[i], fields).contains(d));
            }
        }
    }
}

/// A response that does not pass is rejected exactly where some record has a
/// drift of a kind that is set to reject, and then an error of its request is
/// sent. Else what is sent has the payload at its place: without the fields to
/// strip at the path, and where it is an object, with the annotation under
/// `_contract`, which says `repaired` where there are fields to strip, else
/// `drift` where the summary lists any, else `ok`, and names the asset, its name
/// and external id, the summary and the source.
pub proof fn response_is_rejected_or_repaired(
    rpc: JsonView,
    is_sse: bool,
    ctx: CtxView,
    cc: ContractView,
    actions: Actions,
    path: Seq<char>,
    payload: JsonView,
    place: Place,
)
    requires
        located(rpc, is_sse) == Some((payload, place)),
        well_formed(payload),
        cc.fields.len() > 0,
        records_in(at_path(payload, steps_of(path))).len() > 0,
    ensures
        ({
            let records = records_in(at_path(payload, steps_of(path)));
            let set_to = |k: DriftKind|
                match k {
                    DriftKind::Unexpected => actions.unexpected,
                    DriftKind::MissingRequired => actions.missing_required,
                    DriftKind::TypeMismatch => actions.type_mismatch,
                    DriftKind::Sensitive => actions.sensitive,
                };
            guarded(rpc, is_sse, ctx, cc, actions, path) matches Some((sent, d)) && d
                == decision_of(all_drifts(records, cc.fields), actions) && (d.reject
                <==> exists|i: int, x: DriftView|
                #![trigger record_drifts(records[i], cc.fields).contains(x)]
                0 <= i < records.len() && record_drifts(records[i], cc.fields).contains(x)
                    && set_to(x.kind) == Action::Reject) && (d.reject ==> sent == rejection(
                place,
                ctx,
                cc,
                d.summary,
            )) && (!d.reject ==> ({
                let kept = if d.strip == Set::<Seq<char>>::empty() {
                    payload
                } else {
                    strip_at(payload, steps_of(path), d.strip)
                };
                let status = if d.strip != Set::<Seq<char>>::empty() {
                    "repaired"@
                } else if d.summary != Seq::<char>::empty() {
                    "drift"@
                } else {
                    "ok"@
                };
                &&& !(payload is Object) ==> sent == written(rpc, place, kept)
                &&& payload is Object ==> exists|p: JsonView|
                    sent == #[trigger] written(rpc, place, p) && (forall|q: Seq<char>|
                        q != "_contract"@ ==> #[trigger] member(p, q) == member(kept, q)) && (
                    member(p, "_contract"@) matches Some(note) && member(note, "status"@) == Some(
                        JsonView::Text(status),
                    ) && member(note, "assetId"@) == Some(JsonView::Text(ctx.asset_id)) && member(
                        note,
                        "name"@,
                    ) == Some(
                        match cc.name {
                            Some(t) => JsonView::Text(t),
                            None => JsonView::Null,
                        },
                    ) && member(note, "externalId"@) == Some(
                        match cc.external_id {
                            Some(t) => JsonView::Text(t),
                            None => JsonView::Null,
                        },
                    ) && member(note, "drift"@) == Some(JsonView::Text(d.summary)) && member(
                        note,
                        "source"@,
                    ) == Some(JsonView::Text("cdgc"@)))
            }))
        }),
{
    let records = records_in(at_path(payload, steps_of(path)));
    let drifts = all_drifts(records, cc.fields);
    let d = decision_of(drifts, actions);
    decision_by_kind_and_action(drifts, actions);
    if d.reject {
        let i = choose|i: int|
            0 <= i < drifts.len() && action_for(
                actions,
                (#[trigger] drifts[i]).kind,
            ) == Action::Reject;
        let x = drifts[i];
        assert(drifts.contains(x));
        drift_of_a_record(records, cc.fields, x);
        let k = choose|k: int|
            0 <= k < records.len() && record_drifts(#[trigger] records[k], cc.fields).contains(x);
        assert(record_drifts(records[k], cc.fields).contains(x));
    }
    assert forall|i: int, x: DriftView|
        #![trigger record_drifts(records[i], cc.fields).contains(x)]
        0 <= i < records.len() && record_drifts(records[i], cc.fields).contains(x)
            && action_for(actions, x.kind) == Action::Reject implies d.reject by {
        drift_of_a_record(records, cc.fields, x);
        assert(drifts.contains(x));
        let k = choose|k: int| 0 <= k < drifts.len() && drifts[k] == x;
        assert(action_for(actions, drifts[k].kind) == Action::Reject);
    }
    let p = repaired(payload, d, ctx.asset_id, cc, path);
    if payload is Object {
        repaired_payload_is_annotated(payload, d, ctx.asset_id, cc, path);
        annotation_says(status_of(d), ctx.asset_id, cc, d.summary);
        assert(d.summary.len() == 0 <==> d.summary =~= Seq::<char>::empty());
        assert(!d.reject ==> guarded(rpc, is_sse, ctx, cc, actions, path)->0 == (
            written(rpc, place, p),
            d,
        ));
    } else {
        strip_keeps_well_formed(payload, steps_of(path), d.strip);
    }
}

} // verus!
