//! What is noted of a request, how settings and times are read, and how the cache
//! is used, said of the values themselves.

use crate::cache::{
    lock_after, refresh_after, write_after, LockOutcome, LockReply, LockStep, RefreshReply,
    RefreshStep, StoreReply, WriteReply, WriteStep,
};
use crate::cdgc::{nonce_of, CachedContract, RefreshLock};
use crate::config::{
    actions_view, fails_open, per_call_ms, refresh_interval, store_ttl, text_or, Config,
};
use crate::conformance::{action_named, ContractField};
use crate::document_laws::{decimal_denotes_the_number, trimming_is_exact};
use crate::fetch::Identity;
use crate::json::{member, JsonView};
use crate::request::{asset_of, content_method, context_view, may_be_rpc, CtxView};
use crate::text::{digits_value, is_white, trimmed};
use crate::timing::{call_timeout, whole_units};
use vstd::prelude::*;

verus! {

// ---- requests ----

/// A call of a content method is noted with its id, whatever value the id is: a
/// number, a text, null or anything else. Without an id it is noted with null.
pub proof fn a_call_is_noted_with_its_id(asset_id: Seq<char>, doc: JsonView, m: Seq<char>)
    requires
        member(doc, "method"@) == Some(JsonView::Text(m)),
        m == "tools/call"@ || m == "resources/read"@ || m == "prompts/get"@ || m == "message/send"@
            || m == "message/stream"@ || m == "SendMessage"@ || m == "SendStreamingMessage"@,
    ensures
        context_view(asset_id, Some(doc)) matches Some(noted) && noted.asset_id == asset_id && (
        forall|id: JsonView| #[trigger]
            member(doc, "id"@) == Some(id) ==> noted.rpc_id == id) && (member(doc, "id"@) is None
            ==> noted.rpc_id == JsonView::Null),
{
}

/// A call of any other method is not guarded; a document that is no call, and a
/// request without a document, is guarded with a null id.
pub proof fn other_requests_have_no_id(asset_id: Seq<char>, doc: JsonView)
    ensures
        forall|m: Seq<char>|
            member(doc, "method"@) == Some(JsonView::Text(m)) && m != "tools/call"@ && m
                != "resources/read"@ && m != "prompts/get"@ && m != "message/send"@ && m
                != "message/stream"@ && m != "SendMessage"@ && m != "SendStreamingMessage"@
                ==> !(#[trigger] content_method(m)) && context_view(asset_id, Some(doc)) is None,
        !(member(doc, "method"@) matches Some(JsonView::Text(_))) ==> context_view(
            asset_id,
            Some(doc),
        ) == Some(CtxView { asset_id, rpc_id: JsonView::Null }),
        context_view(asset_id, None) == Some(CtxView { asset_id, rpc_id: JsonView::Null }),
{
}

/// Only a POST of a JSON body may be a call.
pub proof fn only_a_json_post_may_be_a_call(content_type: Seq<char>, method: Seq<char>)
    ensures
        may_be_rpc(content_type, method) <==> method == "POST"@ && content_type.len()
            >= "application/json"@.len() && content_type.take("application/json"@.len() as int)
            == "application/json"@,
{
    let n = "application/json"@.len() as int;
    if content_type.len() >= n {
        assert(content_type.take(n) =~= content_type.subrange(0, n));
    }
}

/// The header names the asset, as it stands, where it has a character that is no
/// white space; else the configured asset is meant.
pub proof fn header_names_the_asset(v: Seq<char>, schema_id: Seq<char>)
    ensures
        (exists|i: int| 0 <= i < v.len() && !is_white(#[trigger] v[i])) ==> asset_of(
            Some(v),
            schema_id,
        ) == v,
        (forall|i: int| 0 <= i < v.len() ==> is_white(#[trigger] v[i])) ==> asset_of(
            Some(v),
            schema_id,
        ) == schema_id,
        asset_of(None, schema_id) == schema_id,
{
    let (front, back) = trimming_is_exact(v);
    let kept = trimmed(v);
    if kept.len() > 0 {
        assert(v[front.len() as int] == kept[0]);
    } else {
        assert(v =~= front + back);
        assert forall|i: int| 0 <= i < v.len() implies is_white(#[trigger] v[i]) by {
            if i < front.len() {
                assert(is_white(front[i]));
            } else {
                assert(is_white(back[i - front.len()]));
            }
        }
    }
}

// ---- settings ----

/// Each setting that is given is used and no other one in its place; each that is
/// not has its default.
pub proof fn settings_are_used(c: Config)
    ensures
        forall|o: Option<String>, default: Seq<char>|
            o is None ==> #[trigger] text_or(o, default) == default,
        forall|s: String, default: Seq<char>| #[trigger] text_or(Some(s), default) == s@,
        actions_view(c).unexpected == action_named(
            match c.on_unexpected_field {
                Some(s) => s@,
                None => "strip"@,
            },
        ),
        actions_view(c).missing_required == action_named(
            match c.on_missing_required {
                Some(s) => s@,
                None => "reject"@,
            },
        ),
        actions_view(c).type_mismatch == action_named(
            match c.on_type_mismatch {
                Some(s) => s@,
                None => "inform"@,
            },
        ),
        actions_view(c).sensitive == action_named(
            match c.on_sensitive_field {
                Some(s) => s@,
                None => "strip"@,
            },
        ),
        forall|ms: i64| c.timeout == Some(ms) ==> #[trigger] per_call_ms(c) == ms,
        c.timeout is None ==> per_call_ms(c) == 5000,
        fails_open(c) <==> c.fail_open_on_cdgc_error != Some(false),
{
}

/// The refresh interval is the setting, or a day, and never negative; a contract
/// is stored for twice as long, at least for 30 days and at most for what 32 bits
/// can count, in milliseconds.
pub proof fn contracts_outlive_their_refresh(c: Config)
    ensures
        refresh_interval(c) >= 0,
        c.refresh_interval_seconds is None ==> refresh_interval(c) == 24 * 60 * 60,
        c.refresh_interval_seconds matches Some(s) ==> (s >= 0 ==> refresh_interval(c) == s) && (s
            < 0 ==> refresh_interval(c) == 0),
        30 * 24 * 60 * 60 * 1000 <= store_ttl(c) <= u32::MAX,
        store_ttl(c) >= 2000 * refresh_interval(c) || store_ttl(c) == u32::MAX,
        store_ttl(c) == 2000 * refresh_interval(c) || store_ttl(c) == 30 * 24 * 60 * 60 * 1000
            || store_ttl(c) == u32::MAX,
        store_ttl(c) == 30 * 24 * 60 * 60 * 1000 ==> 2000 * refresh_interval(c) <= 30 * 24 * 60 * 60
            * 1000,
        store_ttl(c) == u32::MAX ==> 2000 * refresh_interval(c) >= u32::MAX,
{
}

// ---- time ----

/// Whole units are counted down: as many as the duration holds, and no more.
pub proof fn durations_are_counted_in_whole_units(n: u128)
    requires
        n / 1_000_000 <= i64::MAX,
    ensures
        ({
            let seconds = whole_units(Some(n), 1_000_000_000);
            &&& seconds >= 0 && seconds * 1_000_000_000 <= n < (seconds + 1) * 1_000_000_000
        }),
        ({
            let ms = whole_units(Some(n), 1_000_000);
            &&& ms >= 0 && ms * 1_000_000 <= n < (ms + 1) * 1_000_000
        }),
        whole_units(None, 1_000_000) == 0 && whole_units(None, 1_000_000_000) == 0,
{
    assert(n / 1_000_000_000 <= n / 1_000_000);
}

/// A call may take its own time, but no longer than is left of ten seconds, and
/// at least a millisecond.
pub proof fn a_call_has_its_time(per_call: i64, elapsed: i64)
    ensures
        elapsed >= 10_000 ==> call_timeout(per_call, elapsed) is None,
        elapsed < 10_000 ==> (call_timeout(per_call, elapsed) matches Some(ms) && (1 <= per_call
            <= 10_000 - elapsed ==> ms == per_call) && (per_call > 10_000 - elapsed ==> ms == 10_000
            - elapsed) && (per_call < 1 ==> ms == 1)),
{
}

/// A nonce is the number of nanoseconds in digits.
pub proof fn nonce_denotes_the_time(n: u128)
    ensures
        digits_value(nonce_of(Some(n))) == n,
        forall|i: int|
            0 <= i < nonce_of(Some(n)).len() ==> 48 <= (#[trigger] nonce_of(Some(n))[i]) as u32
                <= 57,
        n > 0 ==> nonce_of(Some(n))[0] != '0',
        nonce_of(None) == seq!['0'],
{
    decimal_denotes_the_number(n as nat);
}

// ---- the cache ----

/// The attempt to take the lock, operation by operation: a write that the store
/// took gives the lock; a store that failed ends the attempt without an answer;
/// a lost race for a free lock is followed by a look at the lock, and any other
/// lost race is lost; a lock that is not yet 30 seconds old is left to its owner,
/// an older one is replaced in the version seen, and one that is gone is written
/// anew.
pub proof fn lock_step_by_step(
    entry: RefreshLock,
    lock: RefreshLock,
    version: String,
    seen: String,
)
    ensures
        ({
            let insert = LockStep::Insert { entry };
            let read = LockStep::Read { entry };
            let replace = LockStep::Replace { entry, version };
            let again = LockStep::InsertAgain { entry };
            let stored = LockReply::Write(StoreReply::Stored);
            let lost = LockReply::Write(StoreReply::Mismatch);
            let failed = LockReply::Write(StoreReply::Failed);
            let acquired = LockStep::Finish(LockOutcome::Acquired);
            let denied = LockStep::Finish(LockOutcome::Denied);
            let broken = LockStep::Finish(LockOutcome::Failed);
            &&& lock_after(insert, stored) == acquired
            &&& lock_after(replace, stored) == acquired
            &&& lock_after(again, stored) == acquired
            &&& lock_after(insert, failed) == broken
            &&& lock_after(replace, failed) == broken
            &&& lock_after(again, failed) == broken
            &&& lock_after(insert, lost) == read
            &&& lock_after(replace, lost) == denied
            &&& lock_after(again, lost) == denied
            &&& lock_after(read, LockReply::ReadFailed) == broken
            &&& lock_after(read, LockReply::Found(None)) == again
            &&& entry.acquired_at - lock.acquired_at < 30 ==> lock_after(
                read,
                LockReply::Found(Some((lock, seen))),
            ) == denied
            &&& entry.acquired_at - lock.acquired_at >= 30 ==> lock_after(
                read,
                LockReply::Found(Some((lock, seen))),
            ) == (LockStep::Replace { entry, version: seen })
        }),
{
}

/// Writing the cache, operation by operation: an entry that is there is replaced
/// in the version seen, one that is not is inserted; a lost race costs one try and
/// the last one ends the write; everything else ends it at once.
pub proof fn write_step_by_step(left: u32, version: String, seen: String)
    requires
        left > 0,
    ensures
        ({
            let read = WriteStep::Read { left };
            let replace = WriteStep::Replace { left, version };
            let insert = WriteStep::Insert { left };
            let lost = WriteReply::Write(StoreReply::Mismatch);
            let stored = WriteReply::Write(StoreReply::Stored);
            let failed = WriteReply::Write(StoreReply::Failed);
            let next = if left == 1 {
                WriteStep::Finish
            } else {
                WriteStep::Read { left: (left - 1) as u32 }
            };
            &&& write_after(read, WriteReply::Found(Some(seen))) == (WriteStep::Replace {
                left,
                version: seen,
            })
            &&& write_after(read, WriteReply::Found(None)) == insert
            &&& write_after(read, WriteReply::ReadFailed) == WriteStep::Finish
            &&& write_after(replace, stored) == WriteStep::Finish
            &&& write_after(insert, stored) == WriteStep::Finish
            &&& write_after(replace, failed) == WriteStep::Finish
            &&& write_after(insert, failed) == WriteStep::Finish
            &&& write_after(replace, lost) == next
            &&& write_after(insert, lost) == next
        }),
{
}

/// Looking up a contract, operation by operation: a cached contract is served
/// while fewer seconds than the interval have passed since its timestamp, else
/// the lock is asked for; a denied lock serves what is cached, any other outcome
/// fetches; a fetched contract is stamped, served and stored; and a failed fetch
/// serves what is cached if the guard fails open, else nothing.
pub proof fn lookup_step_by_step(
    c: CachedContract,
    cached: Option<CachedContract>,
    fields: Vec<ContractField>,
    identity: Identity,
    now: i64,
    ttl: i64,
    open: bool,
)
    ensures
        ({
            let read = RefreshStep::ReadCache;
            let lock = RefreshStep::Lock { cached };
            let fetch = RefreshStep::Fetch { cached };
            let served = RefreshStep::Finish { contract: cached, store: false };
            let nothing = RefreshStep::Finish { contract: None, store: false };
            &&& now - c.timestamp < ttl ==> refresh_after(
                read,
                RefreshReply::Cached(Some(c)),
                now,
                ttl,
                open,
            ) == (RefreshStep::Finish { contract: Some(c), store: false })
            &&& now - c.timestamp >= ttl ==> refresh_after(
                read,
                RefreshReply::Cached(Some(c)),
                now,
                ttl,
                open,
            ) == (RefreshStep::Lock { cached: Some(c) })
            &&& refresh_after(read, RefreshReply::Cached(None), now, ttl, open) == (
            RefreshStep::Lock { cached: None })
            &&& refresh_after(lock, RefreshReply::Lock(LockOutcome::Denied), now, ttl, open)
                == served
            &&& refresh_after(lock, RefreshReply::Lock(LockOutcome::Acquired), now, ttl, open)
                == fetch
            &&& refresh_after(lock, RefreshReply::Lock(LockOutcome::Failed), now, ttl, open)
                == fetch
            &&& refresh_after(
                fetch,
                RefreshReply::Fetched(Some((fields, identity))),
                now,
                ttl,
                open,
            ) matches RefreshStep::Finish { contract: Some(k), store: true } && k.fields == fields
                && k.name == identity.name && k.external_id == identity.external_id && k.timestamp
                == now
            &&& refresh_after(fetch, RefreshReply::Fetched(None), now, ttl, true) == served
            &&& refresh_after(fetch, RefreshReply::Fetched(None), now, ttl, false) == nothing
        }),
{
}

} // verus!
