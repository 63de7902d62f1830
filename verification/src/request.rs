//! Which requests are guarded, and for which schema asset.

use crate::config::{setting_or, text_or, Config};
use crate::json::{json_of_bytes, member, optional_view, text_member, Json, JsonView};
use crate::text::{begins_with, matches_at, optional_text, same_text, trim, trimmed};
use vstd::prelude::*;

verus! {

/// What a guarded request leaves for its response: the schema asset and the
/// JSON-RPC id.
#[derive(Debug, PartialEq)]
pub struct Ctx {
    pub asset_id: String,
    pub rpc_id: Json,
}

/// What a guarded request leaves.
pub struct CtxView {
    pub asset_id: Seq<char>,
    pub rpc_id: JsonView,
}

impl View for Ctx {
    type V = CtxView;

    open spec fn view(&self) -> CtxView {
        CtxView { asset_id: self.asset_id@, rpc_id: self.rpc_id@ }
    }
}

/// What a request that may be guarded leaves.
pub open spec fn optional_ctx(o: Option<Ctx>) -> Option<CtxView> {
    match o {
        Some(c) => Some(c@),
        None => None,
    }
}

/// The JSON-RPC methods whose results carry content.
pub open spec fn content_method(m: Seq<char>) -> bool {
    ||| m == "tools/call"@
    ||| m == "resources/read"@
    ||| m == "prompts/get"@
    ||| m == "message/send"@
    ||| m == "message/stream"@
    ||| m == "SendMessage"@
    ||| m == "SendStreamingMessage"@
}

/// Whether the results of a JSON-RPC method carry content.
pub fn is_content_method(method: &str) -> (r: bool)
    ensures
        r == content_method(method@),
{
    same_text(method, "tools/call") || same_text(method, "resources/read") || same_text(
        method,
        "prompts/get",
    ) || same_text(method, "message/send") || same_text(method, "message/stream") || same_text(
        method,
        "SendMessage",
    ) || same_text(method, "SendStreamingMessage")
}

/// The request header that names the schema asset.
pub fn schema_header(config: &Config) -> (r: &str)
    ensures
        r@ == text_or(config.schema_id_header, "x-dp-contract-id"@),
{
    setting_or(&config.schema_id_header, "x-dp-contract-id")
}

/// The schema asset of a request: the header's value unless it is blank, else
/// the configured asset.
pub open spec fn asset_of(header: Option<Seq<char>>, schema_id: Seq<char>) -> Seq<char> {
    match header {
        Some(v) if trimmed(v).len() > 0 => v,
        _ => schema_id,
    }
}

/// The schema asset of a request.
pub fn asset_id_of(header: &Option<String>, schema_id: &String) -> (r: String)
    ensures
        r@ == asset_of(optional_text(*header), schema_id@),
{
    match header {
        Some(v) => {
            if trim(v.as_str()).as_str().is_empty() {
                schema_id.clone()
            } else {
                v.clone()
            }
        },
        None => schema_id.clone(),
    }
}

/// The request may be a JSON-RPC call, so its body is read.
pub open spec fn may_be_rpc(content_type: Seq<char>, http_method: Seq<char>) -> bool {
    matches_at(content_type, "application/json"@, 0) && http_method == "POST"@
}

/// Whether the request may be a JSON-RPC call, so that its body is to be read.
pub fn reads_body(content_type: &str, http_method: &str) -> (r: bool)
    ensures
        r == may_be_rpc(content_type@, http_method@),
{
    begins_with(content_type, "application/json") && same_text(http_method, "POST")
}

/// What a request leaves, by the document in its body: a JSON-RPC call of a
/// content method its id, any other JSON-RPC call nothing, and a request that
/// is no JSON-RPC call a null id.
pub open spec fn context_view(asset_id: Seq<char>, doc: Option<JsonView>) -> Option<CtxView> {
    match doc {
        Some(d) => match text_member(d, "method"@) {
            Some(m) => if content_method(m) {
                Some(
                    CtxView {
                        asset_id,
                        rpc_id: match member(d, "id"@) {
                            Some(id) => id,
                            None => JsonView::Null,
                        },
                    },
                )
            } else {
                None
            },
            None => Some(CtxView { asset_id, rpc_id: JsonView::Null }),
        },
        None => Some(CtxView { asset_id, rpc_id: JsonView::Null }),
    }
}

/// What a request leaves, by the document in its body.
pub fn context_of(asset_id: String, doc: &Option<Json>) -> (r: Option<Ctx>)
    ensures
        optional_ctx(r) == context_view(asset_id@, optional_view(*doc)),
{
    match doc {
        Some(d) => match d.get_text("method") {
            Some(m) => {
                if is_content_method(m.as_str()) {
                    let rpc_id = match d.get("id") {
                        Some(id) => id.copy(),
                        None => Json::Null,
                    };
                    Some(Ctx { asset_id, rpc_id })
                } else {
                    None
                }
            },
            None => Some(Ctx { asset_id, rpc_id: Json::Null }),
        },
        None => Some(Ctx { asset_id, rpc_id: Json::Null }),
    }
}

/// What a request leaves for its response; `None` for a request whose response
/// is not guarded. `header` is the value of the header that [`schema_header`]
/// names; `body` matters only where [`reads_body`] says so.
pub fn request_filter(
    config: &Config,
    header: &Option<String>,
    content_type: &str,
    http_method: &str,
    body: &[u8],
) -> (r: Option<Ctx>)
    ensures
        optional_ctx(r) == context_view(
            asset_of(optional_text(*header), config.schema_id@),
            if may_be_rpc(content_type@, http_method@) {
                json_of_bytes(body@)
            } else {
                None
            },
        ),
        r matches Some(noted) ==> noted.asset_id@ == asset_of(
            optional_text(*header),
            config.schema_id@,
        ),
        http_method@ == "POST"@ && matches_at(content_type@, "application/json"@, 0) ==> (
        json_of_bytes(body@) matches Some(doc) ==> (member(doc, "method"@) matches Some(
            JsonView::Text(m),
        ) ==> (if m == "tools/call"@ || m == "resources/read"@ || m == "prompts/get"@ || m
            == "message/send"@ || m == "message/stream"@ || m == "SendMessage"@ || m
            == "SendStreamingMessage"@ {
            r matches Some(noted) && noted.rpc_id@ == (match member(doc, "id"@) {
                Some(id) => id,
                None => JsonView::Null,
            })
        } else {
            r is None
        }))),
        !(http_method@ == "POST"@ && matches_at(content_type@, "application/json"@, 0)) ==> (
        r matches Some(noted) && noted.rpc_id@ == JsonView::Null),
{
    let asset_id = asset_id_of(header, &config.schema_id);
    let doc: Option<Json> = if reads_body(content_type, http_method) {
        Json::parse_bytes(body)
    } else {
        None
    };
    context_of(asset_id, &doc)
}

} // verus!
