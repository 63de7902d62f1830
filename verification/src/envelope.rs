//! Where a response carries its payload.
//!
//! MCP and A2A wrap the payload in a JSON-RPC envelope, which may come as one
//! server-sent event; a REST API returns the payload itself.

use crate::json::{
    json_of_text, json_text, list_member, list_view, member, members_well_formed, optional_view,
    reads_back, text_member, well_formed, with_member, Json, JsonView,
};
use crate::laws::{
    embedded_content_reads_back, frame_reads_back, structured_content_reads_back,
};
use crate::text::{
    after_prefix, contains_text, occurs, optional_text, pieces, same_text, split, strip_prefix,
    texts, trim, trim_start, trimmed, trimmed_start,
};
use vstd::prelude::*;

verus! {

// ---- reading and framing ----

/// Whether a response is a server-sent event stream; `None` for a response that
/// is no JSON either way.
pub open spec fn stream_of(content_type: Seq<char>) -> Option<bool> {
    if occurs(content_type, "event-stream"@) {
        Some(true)
    } else if occurs(content_type, "json"@) {
        Some(false)
    } else {
        None
    }
}

/// Whether a response is a server-sent event stream.
pub fn response_stream(content_type: &str) -> (r: Option<bool>)
    ensures
        r == stream_of(content_type@),
{
    if contains_text(content_type, "event-stream") {
        Some(true)
    } else if contains_text(content_type, "json") {
        Some(false)
    } else {
        None
    }
}

/// The data of a line of an event stream.
pub open spec fn data_of(line: Seq<char>) -> Option<Seq<char>> {
    match after_prefix(trimmed_start(line), "data:"@) {
        Some(rest) => Some(trimmed(rest)),
        None => None,
    }
}

/// The data of a line of an event stream.
fn line_data(line: &str) -> (r: Option<String>)
    ensures
        optional_text(r) == data_of(line@),
{
    match strip_prefix(trim_start(line).as_str(), "data:") {
        Some(rest) => Some(trim(rest.as_str())),
        None => None,
    }
}

/// The document of a line of an event stream.
pub open spec fn line_document(line: Seq<char>) -> Option<JsonView> {
    match data_of(line) {
        Some(data) => json_of_text(data),
        None => None,
    }
}

/// The document of the first line that has one.
pub open spec fn first_document(lines: Seq<Seq<char>>) -> Option<JsonView>
    decreases lines.len(),
{
    if lines.len() == 0 {
        None
    } else {
        match line_document(lines[0]) {
            Some(doc) => Some(doc),
            None => first_document(lines.drop_first()),
        }
    }
}

/// The document of a response text: of an event stream the first data line that
/// holds one, else the text itself.
pub open spec fn document_of(text: Seq<char>, is_sse: bool) -> Option<JsonView> {
    if is_sse {
        first_document(pieces(text, '\n'))
    } else {
        json_of_text(text)
    }
}

/// The document of a response text.
pub fn parse_rpc(text: &str, is_sse: bool) -> (r: Option<Json>)
    ensures
        optional_view(r) == document_of(text@, is_sse),
        r matches Some(doc) ==> well_formed(doc@),
{
    if !is_sse {
        return Json::parse(text);
    }
    let lines = split(text, '\n');
    let ghost all = texts(lines@);
    let mut i: usize = 0;
    assert(all.skip(0) =~= all);
    while i < lines.len()
        invariant
            i <= lines@.len(),
            all == texts(lines@),
            first_document(all) == first_document(all.skip(i as int)),
            is_sse,
            all == pieces(text@, '\n'),
        decreases lines@.len() - i,
    {
        assert(all.skip(i as int)[0] == lines@[i as int]@);
        assert(all.skip(i as int).drop_first() =~= all.skip(i + 1));
        match line_data(lines[i].as_str()) {
            Some(data) => match Json::parse(data.as_str()) {
                Some(doc) => {
                    return Some(doc);
                },
                None => {},
            },
            None => {},
        }
        i = i + 1;
    }
    None
}

/// A response text: of an event stream one message event, else the text itself.
pub open spec fn framed(text: Seq<char>, is_sse: bool) -> Seq<char> {
    if is_sse {
        "event: message\ndata: "@ + text + "\n\n"@
    } else {
        text
    }
}

/// A document as a response text.
pub fn frame(rpc: &Json, is_sse: bool) -> (r: String)
    ensures
        r@ == framed(json_text(rpc@), is_sse),
        reads_back(rpc@) ==> document_of(r@, is_sse) == Some(rpc@),
{
    let text = rpc.to_text();
    proof {
        frame_reads_back(text@, is_sse);
    }
    if is_sse {
        let mut out: String = "event: message\ndata: ".to_owned();
        out.append(text.as_str());
        out.append("\n\n");
        out
    } else {
        text
    }
}

// ---- the payload's place ----

/// Where the payload stands in a response document.
#[derive(Debug, Clone, Copy, PartialEq, Eq, Structural)]
pub enum Place {
    /// `result.structuredContent`.
    Structured,
    /// The text of item `i` of `result.content`, as embedded JSON.
    Content(usize),
    /// The document itself.
    Rest,
}

/// The document is a JSON-RPC envelope.
pub open spec fn is_envelope(rpc: JsonView, is_sse: bool) -> bool {
    is_sse || member(rpc, "jsonrpc"@) is Some || (member(rpc, "result"@) is Some && member(
        rpc,
        "id"@,
    ) is Some)
}

/// Whether the document is a JSON-RPC envelope.
pub fn is_rpc(rpc: &Json, is_sse: bool) -> (r: bool)
    ensures
        r == is_envelope(rpc@, is_sse),
{
    is_sse || rpc.get("jsonrpc").is_some() || (rpc.get("result").is_some() && rpc.get(
        "id",
    ).is_some())
}

/// The content item is a text item.
pub open spec fn is_text_item(item: JsonView) -> bool {
    text_member(item, "type"@) == Some("text"@)
}

/// The JSON document that a text item embeds.
pub open spec fn embedded(item: JsonView) -> Option<JsonView> {
    match text_member(item, "text"@) {
        Some(t) if is_text_item(item) => json_of_text(t),
        _ => None,
    }
}

/// The first item from `from` on that embeds a document.
pub open spec fn first_embedding(items: Seq<JsonView>, from: int) -> Option<(int, JsonView)>
    decreases items.len() - from,
{
    if from < 0 || from >= items.len() {
        None
    } else {
        match embedded(items[from]) {
            Some(doc) => Some((from, doc)),
            None => first_embedding(items, from + 1),
        }
    }
}

/// The payload of a response document and its place; `None` for an envelope
/// that has none.
pub open spec fn located(rpc: JsonView, is_sse: bool) -> Option<(JsonView, Place)> {
    if !is_envelope(rpc, is_sse) {
        Some((rpc, Place::Rest))
    } else {
        match member(rpc, "result"@) {
            None => None,
            Some(result) => match member(result, "structuredContent"@) {
                Some(payload) => Some((payload, Place::Structured)),
                None => match list_member(result, "content"@) {
                    Some(items) => match first_embedding(items, 0) {
                        Some((i, payload)) => Some((payload, Place::Content(i as usize))),
                        None => None,
                    },
                    None => None,
                },
            },
        }
    }
}

/// Whether the content item is a text item.
fn text_item(item: &Json) -> (r: bool)
    ensures
        r == is_text_item(item@),
{
    match item.get_text("type") {
        Some(t) => same_text(t.as_str(), "text"),
        None => false,
    }
}

/// The JSON document that a text item embeds.
fn embedded_in(item: &Json) -> (r: Option<Json>)
    ensures
        optional_view(r) == embedded(item@),
        r matches Some(doc) ==> well_formed(doc@),
{
    match item.get_text("text") {
        Some(t) => if text_item(item) {
            Json::parse(t.as_str())
        } else {
            None
        },
        None => None,
    }
}

/// What a located payload holds, and its place.
pub open spec fn located_view(o: Option<(Json, Place)>) -> Option<(JsonView, Place)> {
    match o {
        Some((j, p)) => Some((j@, p)),
        None => None,
    }
}

/// The payload of a response document and its place.
pub fn locate(rpc: &Json, is_sse: bool) -> (r: Option<(Json, Place)>)
    ensures
        located_view(r) == located(rpc@, is_sse),
        well_formed(rpc@) ==> (r matches Some((payload, _)) ==> well_formed(payload@)),
{
    if !is_rpc(rpc, is_sse) {
        return Some((rpc.copy(), Place::Rest));
    }
    let result = match rpc.get("result") {
        Some(r) => r,
        None => {
            return None;
        },
    };
    match result.get("structuredContent") {
        Some(payload) => {
            proof {
                if well_formed(rpc@) {
                    members_well_formed(rpc@, "result"@);
                    members_well_formed(result@, "structuredContent"@);
                }
            }
            return Some((payload.copy(), Place::Structured));
        },
        None => {},
    }
    let items = match result.get_list("content") {
        Some(items) => items,
        None => {
            return None;
        },
    };
    let ghost all = list_view(items@);
    let mut i: usize = 0;
    while i < items.len()
        invariant
            i <= items@.len(),
            all == list_view(items@),
            first_embedding(all, 0) == first_embedding(all, i as int),
            is_envelope(rpc@, is_sse),
            member(rpc@, "result"@) == Some(result@),
            member(result@, "structuredContent"@) is None,
            list_member(result@, "content"@) == Some(all),
        decreases items@.len() - i,
    {
        match embedded_in(&items[i]) {
            Some(payload) => {
                return Some((payload, Place::Content(i)));
            },
            None => {},
        }
        i = i + 1;
    }
    None
}

// ---- writing back ----

/// The first text item from `from` on.
pub open spec fn first_text_item(items: Seq<JsonView>, from: int) -> Option<int>
    decreases items.len() - from,
{
    if from < 0 || from >= items.len() {
        None
    } else if is_text_item(items[from]) {
        Some(from)
    } else {
        first_text_item(items, from + 1)
    }
}

/// The result with a text in content item `i`.
pub open spec fn with_content_text(
    result: JsonView,
    items: Seq<JsonView>,
    i: int,
    text: Seq<char>,
) -> JsonView {
    with_member(
        result,
        "content"@,
        JsonView::List(items.update(i, with_member(items[i], "text"@, JsonView::Text(text)))),
    )
}

/// The result with the text of its first text item replaced, so that it mirrors
/// the structured content.
pub open spec fn mirrored(result: JsonView, text: Seq<char>) -> JsonView {
    match list_member(result, "content"@) {
        Some(items) => match first_text_item(items, 0) {
            Some(i) => with_content_text(result, items, i, text),
            None => result,
        },
        None => result,
    }
}

/// The response document with the payload at its place.
pub open spec fn written(rpc: JsonView, place: Place, payload: JsonView) -> JsonView {
    match place {
        Place::Rest => payload,
        Place::Structured => match member(rpc, "result"@) {
            Some(result) => with_member(
                rpc,
                "result"@,
                mirrored(
                    with_member(result, "structuredContent"@, payload),
                    json_text(payload),
                ),
            ),
            None => rpc,
        },
        Place::Content(i) => match member(rpc, "result"@) {
            Some(result) => match list_member(result, "content"@) {
                Some(items) => if i < items.len() && member(items[i as int], "text"@) is Some {
                    with_member(
                        rpc,
                        "result"@,
                        with_content_text(result, items, i as int, json_text(payload)),
                    )
                } else {
                    rpc
                },
                None => rpc,
            },
            None => rpc,
        },
    }
}

/// The items with a text in item `i`.
fn items_with_text(items: &Vec<Json>, i: usize, text: String) -> (r: Json)
    requires
        i < items@.len(),
    ensures
        r@ == JsonView::List(
            list_view(items@).update(
                i as int,
                with_member(list_view(items@)[i as int], "text"@, JsonView::Text(text@)),
            ),
        ),
{
    let ghost all = list_view(items@);
    let ghost changed = with_member(all[i as int], "text"@, JsonView::Text(text@));
    let new_item = items[i].copy().with("text", Json::Text(text));
    let mut out: Vec<Json> = Vec::new();
    let mut k: usize = 0;
    while k < items.len()
        invariant
            k <= items@.len(),
            all == list_view(items@),
            list_view(out@) == all.take(k as int),
        decreases items@.len() - k,
    {
        let ghost held = list_view(out@);
        out.push(items[k].copy());
        assert(list_view(out@) =~= held.push(all[k as int]));
        k = k + 1;
        assert(list_view(out@) =~= all.take(k as int));
    }
    let ghost copied = out@;
    assert(list_view(copied) =~= all);
    out.set(i, new_item);
    assert(list_view(out@) =~= list_view(copied).update(i as int, changed));
    Json::list(out)
}

/// The result with the text of its first text item replaced.
fn mirror_text(result: Json, text: String) -> (r: Json)
    ensures
        r@ == mirrored(result@, text@),
{
    let changed: Option<Json> = match result.get_list("content") {
        Some(items) => {
            let ghost all = list_view(items@);
            let mut i: usize = 0;
            while i < items.len() && !text_item(&items[i])
                invariant
                    i <= items@.len(),
                    all == list_view(items@),
                    first_text_item(all, 0) == first_text_item(all, i as int),
                decreases items@.len() - i,
            {
                i = i + 1;
            }
            if i < items.len() {
                assert(first_text_item(all, 0) == Some(i as int));
                Some(items_with_text(items, i, text))
            } else {
                None
            }
        },
        None => None,
    };
    match changed {
        Some(content) => result.with("content", content),
        None => result,
    }
}

/// Writes the payload back where it was found. In an envelope it is found there
/// again.
pub fn write_back(rpc: Json, place: Place, payload: Json) -> (r: Json)
    ensures
        r@ == written(rpc@, place, payload@),
        forall|is_sse: bool|
            well_formed(rpc@) && reads_back(payload@) && place != Place::Rest && (
            #[trigger] located(rpc@, is_sse) matches Some((_, found)) && found == place)
                ==> located(r@, is_sse) == Some((payload@, place)),
{
    match place {
        Place::Rest => payload,
        Place::Structured => {
            proof {
                assert forall|is_sse: bool|
                    well_formed(rpc@) && (#[trigger] located(rpc@, is_sse) matches Some((_, found))
                        && found == place) implies located(
                    written(rpc@, place, payload@),
                    is_sse,
                ) == Some((payload@, place)) by {
                    structured_content_reads_back(rpc@, is_sse, payload@);
                }
            }
            let result = match rpc.get("result") {
                Some(r) => r.copy(),
                None => {
                    return rpc;
                },
            };
            let text = payload.to_text();
            let result = mirror_text(result.with("structuredContent", payload), text);
            rpc.with("result", result)
        },
        Place::Content(i) => {
            let result = match rpc.get("result") {
                Some(r) => r.copy(),
                None => {
                    return rpc;
                },
            };
            let text = payload.to_text();
            let content: Option<Json> = match result.get_list("content") {
                Some(items) => {
                    let count: usize = items.len();
                    proof {
                        assert forall|is_sse: bool|
                            well_formed(rpc@) && reads_back(payload@) && (
                            #[trigger] located(rpc@, is_sse) matches Some((_, found)) && found
                                == place) implies located(
                            written(rpc@, place, payload@),
                            is_sse,
                        ) == Some((payload@, place)) by {
                            embedded_content_reads_back(rpc@, is_sse, payload@, i);
                        }
                    }
                    if i < count && items[i].get("text").is_some() {
                        Some(items_with_text(items, i, text))
                    } else {
                        None
                    }
                },
                None => None,
            };
            match content {
                Some(c) => rpc.with("result", result.with("content", c)),
                None => rpc,
            }
        },
    }
}

} // verus!
