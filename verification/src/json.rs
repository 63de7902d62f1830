//! JSON documents.
//!
//! `serde_json` reads and prints JSON text. In between, the guard works on
//! [`Json`], a document tree of plain values; only a number is carried through
//! as `serde_json` holds it.

use crate::text::{
    before, before_irreflexive, before_total, before_transitive, optional_text, text_before, texts,
    trimmed,
};
use vstd::prelude::*;

verus! {

// ---- the outside document ----

/// `serde_json::Value`, a parsed document.
#[verifier::external_type_specification]
#[verifier::external_body]
pub struct ExValue(serde_json::Value);

/// `serde_json::Number`, a number of a parsed document.
#[verifier::external_type_specification]
#[verifier::external_body]
pub struct ExNumber(serde_json::Number);

/// `serde_json::Error`, why a text is no document.
#[verifier::external_type_specification]
#[verifier::external_body]
pub struct ExError(serde_json::Error);

/// The content of a document. The entries of an object stand in the order of
/// their keys.
pub enum JsonView {
    Null,
    Bool(bool),
    Number(serde_json::Number),
    Text(Seq<char>),
    List(Seq<JsonView>),
    Object(Entries),
}

/// The keys and values of an object.
pub type Entries = Seq<(Seq<char>, JsonView)>;

/// What a `serde_json::Value` holds.
pub uninterp spec fn json_of(v: serde_json::Value) -> JsonView;

/// The integer that a `serde_json::Number` holds; `None` for a floating-point
/// number.
pub uninterp spec fn integer_value(n: serde_json::Number) -> Option<int>;

/// What `Number::from` makes of an integer.
pub uninterp spec fn number_from(i: i64) -> serde_json::Number;

/// What `serde_json::from_str` reads from a text; `None` where it fails.
pub uninterp spec fn json_of_text(text: Seq<char>) -> Option<JsonView>;

/// What `serde_json::from_slice` reads from bytes; `None` where it fails.
pub uninterp spec fn json_of_bytes(bytes: Seq<u8>) -> Option<JsonView>;

/// The compact text that `serde_json` prints for a document.
pub uninterp spec fn json_text(j: JsonView) -> Seq<char>;

/// One level of a `serde_json::Value`.
pub enum Node {
    Null,
    Bool(bool),
    Number(serde_json::Number),
    Text(String),
    List(Vec<serde_json::Value>),
    Object(Vec<(String, serde_json::Value)>),
}

/// What the entries of an outside object hold.
pub open spec fn outside_entries(es: Seq<(String, serde_json::Value)>) -> Entries {
    es.map_values(|e: (String, serde_json::Value)| (e.0@, json_of(e.1)))
}

/// What the items of an outside array hold.
pub open spec fn outside_items(items: Seq<serde_json::Value>) -> Seq<JsonView> {
    items.map_values(|v: serde_json::Value| json_of(v))
}

/// What one level of a document holds.
pub open spec fn node_view(n: Node) -> JsonView {
    match n {
        Node::Null => JsonView::Null,
        Node::Bool(b) => JsonView::Bool(b),
        Node::Number(n) => JsonView::Number(n),
        Node::Text(s) => JsonView::Text(s@),
        Node::List(items) => JsonView::List(outside_items(items@)),
        Node::Object(es) => JsonView::Object(outside_entries(es@)),
    }
}

/// `serde_json::from_str`, read as a `Value`: succeeds or fails by the text
/// alone, and what it reads is named by [`json_of_text`].
#[verifier::external_body]
fn read_text(text: &str) -> (r: Result<serde_json::Value, serde_json::Error>)
    ensures
        json_of_text(text@) == (match r {
            Ok(v) => Some(json_of(v)),
            Err(_) => None,
        }),
{
    serde_json::from_str(text)
}

/// `serde_json::from_slice`, read as a `Value`: succeeds or fails by the bytes
/// alone, and what it reads is named by [`json_of_bytes`].
#[verifier::external_body]
fn read_bytes(bytes: &[u8]) -> (r: Result<serde_json::Value, serde_json::Error>)
    ensures
        json_of_bytes(bytes@) == (match r {
            Ok(v) => Some(json_of(v)),
            Err(_) => None,
        }),
{
    serde_json::from_slice(bytes)
}

/// The document has no floating-point number.
pub open spec fn without_floats(j: JsonView) -> bool
    decreases j,
{
    match j {
        JsonView::Number(n) => integer_value(n) is Some,
        JsonView::List(items) => forall|i: int|
            0 <= i < items.len() ==> without_floats(#[trigger] items[i]),
        JsonView::Object(e) => forall|i: int|
            0 <= i < e.len() ==> without_floats((#[trigger] e[i]).1),
        _ => true,
    }
}

/// Lists and objects nest no deeper than this many levels.
pub open spec fn nests_within(j: JsonView, levels: nat) -> bool
    decreases j,
{
    match j {
        JsonView::List(items) => levels > 0 && forall|i: int|
            0 <= i < items.len() ==> nests_within(#[trigger] items[i], (levels - 1) as nat),
        JsonView::Object(e) => levels > 0 && forall|i: int|
            0 <= i < e.len() ==> nests_within((#[trigger] e[i]).1, (levels - 1) as nat),
        _ => true,
    }
}

/// `serde_json` reads the document back as it was printed: it has no
/// floating-point number, of which the last digit may differ, and stays within
/// the depth to which text is read.
pub open spec fn reads_back(j: JsonView) -> bool {
    without_floats(j) && nests_within(j, 127)
}

/// The `Display` of a `Value`: the compact text, which depends on what the
/// value holds and is named by [`json_text`]. Control characters are escaped in
/// it and nothing is put around or between the tokens, so it has no line break
/// and no outer white space. `serde_json::from_str` reads it back as the same
/// document, of integers only and within its recursion limit.
#[verifier::external_body]
fn print_value(v: &serde_json::Value) -> (r: String)
    ensures
        r@ == json_text(json_of(*v)),
        !r@.contains('\n'),
        trimmed(r@) == r@,
        reads_back(json_of(*v)) ==> json_of_text(r@) == Some(json_of(*v)),
{
    v.to_string()
}

/// Takes a `Value` apart by its variant. `Map::into_iter` hands out the entries
/// of an object by ascending key, each key once.
#[verifier::external_body]
fn open(v: serde_json::Value) -> (r: Node)
    ensures
        node_view(r) == json_of(v),
        r matches Node::Object(es) ==> ascending(outside_entries(es@)),
{
    match v {
        serde_json::Value::Null => Node::Null,
        serde_json::Value::Bool(b) => Node::Bool(b),
        serde_json::Value::Number(n) => Node::Number(n),
        serde_json::Value::String(s) => Node::Text(s),
        serde_json::Value::Array(items) => Node::List(items),
        serde_json::Value::Object(map) => Node::Object(map.into_iter().collect()),
    }
}

/// Puts a `Value` together from its variant. `Map::from_iter` keeps every entry
/// of a list in which no key stands twice.
#[verifier::external_body]
fn close(n: Node) -> (r: serde_json::Value)
    requires
        n matches Node::Object(es) ==> ascending(outside_entries(es@)),
    ensures
        json_of(r) == node_view(n),
{
    match n {
        Node::Null => serde_json::Value::Null,
        Node::Bool(b) => serde_json::Value::Bool(b),
        Node::Number(n) => serde_json::Value::Number(n),
        Node::Text(s) => serde_json::Value::String(s),
        Node::List(items) => serde_json::Value::Array(items),
        Node::Object(es) => serde_json::Value::Object(es.into_iter().collect()),
    }
}

/// `Number::from` an `i64`: a number that holds this integer.
#[verifier::external_body]
fn number_of(i: i64) -> (r: serde_json::Number)
    ensures
        r == number_from(i),
        integer_value(r) == Some(i as int),
{
    serde_json::Number::from(i)
}

/// `Number::is_i64`: whether the number is an integer that `i64` can hold.
pub assume_specification[ serde_json::Number::is_i64 ](n: &serde_json::Number) -> (r: bool)
    ensures
        r == (integer_value(*n) matches Some(i) && i64::MIN <= i <= i64::MAX),
;

/// `Number::is_u64`: whether the number is an integer that `u64` can hold.
pub assume_specification[ serde_json::Number::is_u64 ](n: &serde_json::Number) -> (r: bool)
    ensures
        r == (integer_value(*n) matches Some(i) && 0 <= i <= u64::MAX),
;

/// The `Clone` of a `Number`: the same number.
pub assume_specification[ <serde_json::Number as Clone>::clone ](n: &serde_json::Number) -> (r:
    serde_json::Number)
    ensures
        r == *n,
;

// ---- objects ----

/// The keys ascend, so none stands twice.
pub open spec fn ascending(e: Entries) -> bool {
    forall|i: int, j: int| 0 <= i < j < e.len() ==> before(#[trigger] e[i].0, #[trigger] e[j].0)
}

/// Entry `i` has the key `k`.
pub open spec fn key_at(e: Entries, k: Seq<char>, i: int) -> bool {
    0 <= i < e.len() && e[i].0 == k
}

/// Some entry has the key `k`.
pub open spec fn has_key(e: Entries, k: Seq<char>) -> bool {
    exists|i: int| key_at(e, k, i)
}

/// The value under the key `k`.
pub open spec fn lookup(e: Entries, k: Seq<char>) -> Option<JsonView> {
    if has_key(e, k) {
        Some(e[choose|i: int| key_at(e, k, i)].1)
    } else {
        None
    }
}

/// The keys, in order.
pub open spec fn keys_of(e: Entries) -> Seq<Seq<char>> {
    e.map_values(|p: (Seq<char>, JsonView)| p.0)
}

/// The entries with `v` under the key `k`: in place of the old value, or at the
/// position of the new key.
pub open spec fn put(e: Entries, k: Seq<char>, v: JsonView) -> Entries
    decreases e.len(),
{
    if e.len() == 0 {
        seq![(k, v)]
    } else if before(e[0].0, k) {
        seq![e[0]] + put(e.drop_first(), k, v)
    } else if e[0].0 == k {
        seq![(k, v)] + e.drop_first()
    } else {
        seq![(k, v)] + e
    }
}

/// The entries whose key is not among `names`.
pub open spec fn stripped(e: Entries, names: Set<Seq<char>>) -> Entries {
    e.filter(|p: (Seq<char>, JsonView)| !names.contains(p.0))
}

/// Keys of ascending entries are distinct, so a value found under a key is the
/// value under that key.
pub proof fn lookup_at(e: Entries, k: Seq<char>, i: int)
    requires
        ascending(e),
        key_at(e, k, i),
    ensures
        lookup(e, k) == Some(e[i].1),
{
    let j = choose|j: int| key_at(e, k, j);
    if i < j {
        assert(before(e[i].0, e[j].0));
        before_irreflexive(k);
    } else if j < i {
        assert(before(e[j].0, e[i].0));
        before_irreflexive(k);
    }
}

/// Ascending entries without the first one ascend.
proof fn ascending_rest(e: Entries)
    requires
        ascending(e),
        e.len() > 0,
    ensures
        ascending(e.drop_first()),
{
    let r = e.drop_first();
    assert forall|i: int, j: int| 0 <= i < j < r.len() implies before(
        #[trigger] r[i].0,
        #[trigger] r[j].0,
    ) by {
        assert(r[i] == e[i + 1] && r[j] == e[j + 1]);
    }
}

/// `put` works at the first position whose key does not stand before `k`.
proof fn put_at(e: Entries, k: Seq<char>, v: JsonView, p: int)
    requires
        0 <= p <= e.len(),
        forall|j: int| 0 <= j < p ==> before(#[trigger] e[j].0, k),
        p < e.len() ==> !before(e[p].0, k),
    ensures
        put(e, k, v) == if p < e.len() && e[p].0 == k {
            e.update(p, (k, v))
        } else {
            e.insert(p, (k, v))
        },
    decreases p,
{
    if p == 0 {
        if e.len() > 0 && e[0].0 == k {
            assert(put(e, k, v) =~= e.update(0, (k, v)));
        } else {
            assert(put(e, k, v) =~= e.insert(0, (k, v)));
        }
    } else {
        let r = e.drop_first();
        assert(before(e[0].0, k));
        assert forall|j: int| 0 <= j < p - 1 implies before(#[trigger] r[j].0, k) by {
            assert(r[j] == e[j + 1]);
        }
        put_at(r, k, v, p - 1);
        if p < e.len() && e[p].0 == k {
            assert(put(e, k, v) =~= e.update(p, (k, v)));
        } else {
            assert(put(e, k, v) =~= e.insert(p, (k, v)));
        }
    }
}

/// The position at which `put` works.
proof fn put_position(e: Entries, k: Seq<char>) -> (p: int)
    requires
        ascending(e),
    ensures
        0 <= p <= e.len(),
        forall|j: int| 0 <= j < p ==> before(#[trigger] e[j].0, k),
        p < e.len() ==> !before(e[p].0, k),
        forall|j: int| p < j < e.len() ==> before(k, #[trigger] e[j].0),
    decreases e.len(),
{
    if e.len() > 0 && before(e[0].0, k) {
        ascending_rest(e);
        let r = e.drop_first();
        let p = put_position(r, k) + 1;
        assert forall|j: int| 0 <= j < p implies before(#[trigger] e[j].0, k) by {
            if j > 0 {
                assert(e[j] == r[j - 1]);
            }
        }
        assert forall|j: int| p < j < e.len() implies before(k, #[trigger] e[j].0) by {
            assert(e[j] == r[j - 1]);
        }
        p
    } else {
        if e.len() > 0 {
            before_total(e[0].0, k);
            assert forall|j: int| 0 < j < e.len() implies before(k, #[trigger] e[j].0) by {
                assert(before(e[0].0, e[j].0));
                if e[0].0 != k {
                    before_transitive(k, e[0].0, e[j].0);
                }
            }
        }
        0
    }
}

/// Putting an entry keeps the keys ascending, puts the value under its key and
/// leaves the value under every other key as it was.
pub proof fn put_law(e: Entries, k: Seq<char>, v: JsonView)
    requires
        ascending(e),
    ensures
        ascending(put(e, k, v)),
        lookup(put(e, k, v), k) == Some(v),
        forall|q: Seq<char>| q != k ==> #[trigger] lookup(put(e, k, v), q) == lookup(e, q),
{
    let p = put_position(e, k);
    put_at(e, k, v, p);
    let n = put(e, k, v);
    let replaced = p < e.len() && e[p].0 == k;
    if p < e.len() {
        before_total(e[p].0, k);
    }
    assert forall|i: int, j: int| 0 <= i < j < n.len() implies before(
        #[trigger] n[i].0,
        #[trigger] n[j].0,
    ) by {
        if replaced {
            if i == p {
                assert(before(k, e[j].0));
            } else if j == p {
                assert(before(e[i].0, k));
            } else {
                assert(before(e[i].0, e[j].0));
            }
        } else {
            let x = if i < p { i } else { i - 1 };
            let y = if j < p { j } else { j - 1 };
            if i == p {
                assert(n[j] == e[y]);
                assert(before(k, e[y].0));
            } else if j == p {
                assert(before(e[i].0, k));
            } else {
                assert(n[i] == e[x] && n[j] == e[y]);
                assert(before(e[x].0, e[y].0));
            }
        }
    }
    assert(key_at(n, k, p));
    lookup_at(n, k, p);
    assert forall|q: Seq<char>| q != k implies #[trigger] lookup(n, q) == lookup(e, q) by {
        if has_key(e, q) {
            let i = choose|i: int| key_at(e, q, i);
            let x = if replaced || i < p { i } else { i + 1 };
            assert(key_at(n, q, x));
            lookup_at(n, q, x);
            lookup_at(e, q, i);
        }
        if has_key(n, q) {
            let i = choose|i: int| key_at(n, q, i);
            let x = if replaced || i < p { i } else { i - 1 };
            assert(key_at(e, q, x));
        }
    }
}

/// The objects of a document have ascending keys, at every depth.
pub open spec fn well_formed(j: JsonView) -> bool
    decreases j,
{
    match j {
        JsonView::List(items) => forall|i: int|
            0 <= i < items.len() ==> well_formed(#[trigger] items[i]),
        JsonView::Object(e) => ascending(e) && forall|i: int|
            0 <= i < e.len() ==> well_formed((#[trigger] e[i]).1),
        _ => true,
    }
}

/// The entries after a `put` are the new one and entries that were there.
pub proof fn put_entries(e: Entries, k: Seq<char>, v: JsonView, i: int)
    requires
        ascending(e),
        0 <= i < put(e, k, v).len(),
    ensures
        put(e, k, v)[i] == (k, v) || e.contains(put(e, k, v)[i]),
{
    let p = put_position(e, k);
    put_at(e, k, v, p);
    let n = put(e, k, v);
    if i != p {
        if p < e.len() && e[p].0 == k {
            assert(n[i] == e[i]);
        } else if i < p {
            assert(n[i] == e[i]);
        } else {
            assert(n[i] == e[i - 1]);
        }
    }
}

/// The values of a well-formed object are well-formed, also after a `put` of a
/// well-formed value and after stripping.
pub proof fn entries_well_formed(e: Entries, k: Seq<char>, v: JsonView, names: Set<Seq<char>>)
    requires
        well_formed(JsonView::Object(e)),
    ensures
        lookup(e, k) matches Some(x) ==> well_formed(x),
        well_formed(v) ==> well_formed(JsonView::Object(put(e, k, v))),
        well_formed(JsonView::Object(stripped(e, names))),
{
    if has_key(e, k) {
        let i = choose|i: int| key_at(e, k, i);
        assert(well_formed(e[i].1));
        lookup_at(e, k, i);
    }
    put_law(e, k, v);
    let n = put(e, k, v);
    if well_formed(v) {
        assert forall|i: int| 0 <= i < n.len() implies well_formed((#[trigger] n[i]).1) by {
            put_entries(e, k, v, i);
            if n[i] != (k, v) {
                let x = choose|x: int| 0 <= x < e.len() && e[x] == n[i];
                assert(well_formed(e[x].1));
            }
        }
    }
    let s = stripped(e, names);
    stripped_law(e, names);
    assert forall|i: int| 0 <= i < s.len() implies well_formed((#[trigger] s[i]).1) by {
        kept_was_there(e, names, i);
        let x = choose|x: int| 0 <= x < e.len() && e[x] == s[i];
        assert(well_formed(e[x].1));
    }
}

/// Putting the value that a key already has changes nothing.
pub proof fn put_same(e: Entries, k: Seq<char>, i: int)
    requires
        ascending(e),
        key_at(e, k, i),
    ensures
        put(e, k, e[i].1) == e,
    decreases e.len(),
{
    if i == 0 {
        before_irreflexive(k);
        assert(put(e, k, e[i].1) =~= e);
    } else {
        assert(before(e[0].0, e[i].0));
        ascending_rest(e);
        let rest = e.drop_first();
        assert(key_at(rest, k, i - 1));
        put_same(rest, k, i - 1);
        assert(seq![e[0]] + rest =~= e);
    }
}

/// Taking out a key and putting it back with another value is putting the
/// value.
pub proof fn put_after_strip(e: Entries, k: Seq<char>, v: JsonView)
    requires
        ascending(e),
    ensures
        put(stripped(e, set![k]), k, v) == put(e, k, v),
{
    let p = put_position(e, k);
    let s = stripped(e, set![k]);
    put_at(e, k, v, p);
    if p < e.len() && e[p].0 == k {
        stripped_one(e, k, p);
        assert forall|j: int| 0 <= j < p implies before(#[trigger] s[j].0, k) by {
            assert(s[j] == e[j]);
        }
        if p < s.len() {
            assert(s[p] == e[p + 1]);
            assert(before(k, e[p + 1].0));
            if before(s[p].0, k) {
                before_transitive(k, s[p].0, k);
                before_irreflexive(k);
            }
            before_irreflexive(k);
        }
        put_at(s, k, v, p);
        assert(s.insert(p, (k, v)) =~= e.update(p, (k, v)));
    } else {
        assert forall|j: int| 0 <= j < e.len() implies !set![k].contains((#[trigger] e[j]).0) by {
            before_irreflexive(k);
            if j < p {
                assert(before(e[j].0, k));
            } else if j > p {
                assert(before(k, e[j].0));
            }
        }
        stripped_nothing(e, set![k]);
    }
}

/// Stripping keeps the keys ascending, leaves no value under a stripped name
/// and leaves the value under every other key as it was.
pub proof fn stripped_law(e: Entries, names: Set<Seq<char>>)
    requires
        ascending(e),
    ensures
        ascending(stripped(e, names)),
        forall|q: Seq<char>|
            #[trigger] lookup(stripped(e, names), q) == if names.contains(q) {
                None
            } else {
                lookup(e, q)
            },
        forall|q: Seq<char>|
            #[trigger] has_key(stripped(e, names), q) <==> has_key(e, q) && !names.contains(q),
{
    let keep = |p: (Seq<char>, JsonView)| !names.contains(p.0);
    let s = stripped(e, names);
    stripped_ascends(e, names);
    broadcast use vstd::seq_lib::group_filter_ensures;

    assert forall|q: Seq<char>| has_key(e, q) && !names.contains(q) implies has_key(s, q) && lookup(
        s,
        q,
    ) == lookup(e, q) by {
        let i = choose|i: int| key_at(e, q, i);
        lookup_at(e, q, i);
        assert(keep(e[i]));
        assert(s.contains(e[i]));
        let j = choose|j: int| 0 <= j < s.len() && s[j] == e[i];
        assert(key_at(s, q, j));
        lookup_at(s, q, j);
    }
    assert forall|q: Seq<char>| #[trigger] has_key(s, q) implies has_key(e, q) && !names.contains(
        q,
    ) by {
        let j = choose|j: int| key_at(s, q, j);
        assert(keep(s[j]));
        kept_was_there(e, names, j);
        let i = choose|i: int| 0 <= i < e.len() && e[i] == s[j];
        assert(key_at(e, q, i));
    }
}

/// Every entry that stripping keeps was there before.
proof fn kept_was_there(e: Entries, names: Set<Seq<char>>, j: int)
    requires
        0 <= j < stripped(e, names).len(),
    ensures
        e.contains(stripped(e, names)[j]),
    decreases e.len(),
{
    reveal(Seq::filter);
    let head = e.drop_last();
    let h = stripped(head, names);
    if j < h.len() {
        kept_was_there(head, names, j);
        let x = choose|x: int| 0 <= x < head.len() && head[x] == h[j];
        assert(e[x] == h[j]);
    } else {
        assert(e[e.len() - 1] == stripped(e, names)[j]);
    }
}

/// Stripping keeps the keys ascending.
proof fn stripped_ascends(e: Entries, names: Set<Seq<char>>)
    requires
        ascending(e),
    ensures
        ascending(stripped(e, names)),
    decreases e.len(),
{
    broadcast use vstd::seq_lib::group_filter_ensures;

    reveal(Seq::filter);
    if e.len() > 0 {
        let keep = |p: (Seq<char>, JsonView)| !names.contains(p.0);
        let head = e.drop_last();
        let h = stripped(head, names);
        let s = stripped(e, names);
        stripped_ascends(head, names);
        if keep(e.last()) {
            assert(s == h.push(e.last()));
            assert forall|i: int, j: int| 0 <= i < j < s.len() implies before(
                #[trigger] s[i].0,
                #[trigger] s[j].0,
            ) by {
                if j == h.len() {
                    kept_was_there(head, names, i);
                    let x = choose|x: int| 0 <= x < head.len() && head[x] == h[i];
                    assert(before(e[x].0, e[e.len() - 1].0));
                }
            }
        } else {
            assert(s == h);
        }
    }
}

/// Entries that hold none of the names are left as they are.
pub proof fn stripped_nothing(e: Entries, names: Set<Seq<char>>)
    requires
        forall|i: int| 0 <= i < e.len() ==> !names.contains((#[trigger] e[i]).0),
    ensures
        stripped(e, names) == e,
    decreases e.len(),
{
    reveal(Seq::filter);
    if e.len() > 0 {
        let head = e.drop_last();
        assert forall|i: int| 0 <= i < head.len() implies !names.contains((#[trigger] head[i]).0) by {
            assert(head[i] == e[i]);
        }
        stripped_nothing(head, names);
        assert(stripped(e, names) =~= e);
    }
}

/// Taking out a key that is not there changes nothing.
pub proof fn absent_strips_nothing(e: Entries, k: Seq<char>)
    requires
        lookup(e, k) is None,
    ensures
        stripped(e, set![k]) == e,
{
    assert forall|j: int| 0 <= j < e.len() implies !set![k].contains((#[trigger] e[j]).0) by {
        assert(!key_at(e, k, j));
    }
    stripped_nothing(e, set![k]);
}

// ---- documents ----

/// A document.
#[derive(Debug, PartialEq)]
pub enum Json {
    Null,
    Bool(bool),
    Number(serde_json::Number),
    Text(String),
    List(Vec<Json>),
    Object(Record),
}

/// An object: values under distinct keys, in the order of the keys.
/// `serde_json::Map` has no methods for values other than `serde_json::Value`, so
/// the entries stand in a `Vec`.
#[derive(Debug, PartialEq)]
pub struct Record {
    entries: Vec<(String, Json)>,
}

/// What a document holds.
pub open spec fn json_view(j: Json) -> JsonView
    decreases j,
{
    match j {
        Json::Null => JsonView::Null,
        Json::Bool(b) => JsonView::Bool(b),
        Json::Number(n) => JsonView::Number(n),
        Json::Text(s) => JsonView::Text(s@),
        Json::List(items) => JsonView::List(
            Seq::new(
                items@.len(),
                |i: int|
                    if 0 <= i < items@.len() {
                        json_view(items@[i])
                    } else {
                        JsonView::Null
                    },
            ),
        ),
        Json::Object(r) => JsonView::Object(record_view(r)),
    }
}

/// What an object holds.
pub closed spec fn record_view(r: Record) -> Entries
    decreases r,
{
    Seq::new(
        r.entries@.len(),
        |i: int|
            if 0 <= i < r.entries@.len() {
                (r.entries@[i].0@, json_view(r.entries@[i].1))
            } else {
                (Seq::empty(), JsonView::Null)
            },
    )
}

impl View for Json {
    type V = JsonView;

    open spec fn view(&self) -> JsonView {
        json_view(*self)
    }
}

impl View for Record {
    type V = Entries;

    open spec fn view(&self) -> Entries {
        record_view(*self)
    }
}

/// What the documents of a list hold.
pub open spec fn list_view(items: Seq<Json>) -> Seq<JsonView> {
    items.map_values(|j: Json| j@)
}

/// What an optional document holds.
pub open spec fn optional_view(o: Option<Json>) -> Option<JsonView> {
    match o {
        Some(j) => Some(j@),
        None => None,
    }
}

/// What an optional reference to a document holds.
pub open spec fn optional_ref_view(o: Option<&Json>) -> Option<JsonView> {
    match o {
        Some(j) => Some(j@),
        None => None,
    }
}

/// A list holds what its items hold.
pub broadcast proof fn list_holds_items(items: Vec<Json>)
    ensures
        #[trigger] Json::List(items)@ == JsonView::List(list_view(items@)),
{
    assert(Json::List(items)@->List_0 =~= list_view(items@));
}

impl Record {
    #[verifier::type_invariant]
    spec fn in_order(self) -> bool {
        ascending(record_view(self))
    }

    /// An object without entries.
    pub fn new() -> (r: Record)
        ensures
            r@ == Entries::empty(),
    {
        let r = Record { entries: Vec::new() };
        assert(r@ =~= Entries::empty());
        r
    }

    /// The number of entries.
    pub fn len(&self) -> (r: usize)
        ensures
            r == self@.len(),
    {
        self.entries.len()
    }

    /// The keys of an object ascend.
    pub fn ordered(&self)
        ensures
            ascending(self@),
    {
        proof {
            use_type_invariant(self);
        }
    }

    /// The keys, in order.
    pub fn keys(&self) -> (r: Vec<String>)
        ensures
            texts(r@) == keys_of(self@),
    {
        let mut out: Vec<String> = Vec::new();
        let mut i: usize = 0;
        while i < self.entries.len()
            invariant
                i <= self.entries@.len(),
                texts(out@) == keys_of(self@).take(i as int),
            decreases self.entries@.len() - i,
        {
            let ghost held = out@;
            out.push(self.entries[i].0.clone());
            assert(texts(out@) =~= texts(held).push(keys_of(self@)[i as int]));
            i = i + 1;
            assert(texts(out@) =~= keys_of(self@).take(i as int));
        }
        assert(keys_of(self@).take(i as int) =~= keys_of(self@));
        out
    }

    /// The position of a key.
    fn position(&self, key: &str) -> (r: Option<usize>)
        ensures
            match r {
                Some(i) => key_at(self@, key@, i as int),
                None => !has_key(self@, key@),
            },
    {
        let wanted: String = key.to_owned();
        let mut i: usize = 0;
        while i < self.entries.len()
            invariant
                i <= self.entries@.len(),
                wanted@ == key@,
                forall|j: int| 0 <= j < i ==> !key_at(self@, key@, j),
            decreases self.entries@.len() - i,
        {
            if self.entries[i].0 == wanted {
                assert(key_at(self@, key@, i as int));
                return Some(i);
            }
            i = i + 1;
        }
        None
    }

    /// The value under a key.
    pub fn get(&self, key: &str) -> (r: Option<&Json>)
        ensures
            optional_ref_view(r) == lookup(self@, key@),
    {
        proof {
            use_type_invariant(self);
        }
        match self.position(key) {
            Some(i) => {
                proof {
                    lookup_at(self@, key@, i as int);
                }
                Some(&self.entries[i].1)
            },
            None => None,
        }
    }

    /// Puts a value under a key, in place of the one that was there.
    pub fn insert(&mut self, key: String, value: Json)
        ensures
            final(self)@ == put(old(self)@, key@, value@),
    {
        proof {
            use_type_invariant(&*self);
        }
        let ghost e = self@;
        let mut entries: Vec<(String, Json)> = Vec::new();
        std::mem::swap(&mut entries, &mut self.entries);
        let ghost held = entries@;
        let mut p: usize = 0;
        while p < entries.len() && text_before(entries[p].0.as_str(), key.as_str())
            invariant
                p <= entries@.len(),
                entries@ == held,
                held.len() == e.len(),
                forall|j: int| 0 <= j < held.len() ==> (#[trigger] held[j]).0@ == e[j].0,
                forall|j: int| 0 <= j < p ==> before(#[trigger] e[j].0, key@),
            decreases entries@.len() - p,
        {
            p = p + 1;
        }
        proof {
            put_at(e, key@, value@, p as int);
            put_law(e, key@, value@);
        }
        if p < entries.len() && entries[p].0 == key {
            entries.set(p, (key, value));
        } else {
            entries.insert(p, (key, value));
        }
        let ghost after = Record { entries };
        assert(record_view(after) =~= put(e, key@, value@));
        self.entries = entries;
    }

    /// Takes out the value under a key.
    pub fn remove(&mut self, key: &str) -> (r: Option<Json>)
        ensures
            final(self)@ == stripped(old(self)@, set![key@]),
            optional_view(r) == lookup(old(self)@, key@),
    {
        proof {
            use_type_invariant(&*self);
        }
        let ghost e = self@;
        match self.position(key) {
            Some(i) => {
                let mut entries: Vec<(String, Json)> = Vec::new();
                std::mem::swap(&mut entries, &mut self.entries);
                let entry = entries.remove(i);
                let ghost after = Record { entries };
                proof {
                    lookup_at(e, key@, i as int);
                    stripped_one(e, key@, i as int);
                    stripped_law(e, set![key@]);
                }
                assert(record_view(after) =~= e.remove(i as int));
                self.entries = entries;
                Some(entry.1)
            },
            None => {
                proof {
                    absent_strips_nothing(e, key@);
                }
                None
            },
        }
    }
}

/// Stripping one key takes out the entry that has it.
proof fn stripped_one(e: Entries, k: Seq<char>, i: int)
    requires
        ascending(e),
        key_at(e, k, i),
    ensures
        stripped(e, set![k]) == e.remove(i),
    decreases e.len(),
{
    reveal(Seq::filter);
    let names = set![k];
    let head = e.drop_last();
    if i == e.len() - 1 {
        assert forall|j: int| 0 <= j < head.len() implies !names.contains((#[trigger] head[j]).0) by {
            assert(before(e[j].0, e[i].0));
            before_irreflexive(k);
        }
        stripped_nothing(head, names);
        assert(e.remove(i) =~= head);
    } else {
        stripped_one(head, k, i);
        assert(before(e[i].0, e[e.len() - 1].0));
        before_irreflexive(k);
        assert(e.remove(i) =~= head.remove(i).push(e.last()));
    }
}

impl Json {
    /// The document that a `serde_json::Value` holds.
    fn from_value(v: serde_json::Value) -> (r: Json)
        ensures
            r@ == json_of(v),
            well_formed(r@),
        decreases json_of(v),
    {
        match open(v) {
            Node::Null => Json::Null,
            Node::Bool(b) => Json::Bool(b),
            Node::Number(n) => Json::Number(n),
            Node::Text(s) => Json::Text(s),
            Node::List(items) => {
                let ghost all = items@;
                let mut out: Vec<Json> = Vec::new();
                for item in it: items
                    invariant
                        it.seq() == all,
                        json_of(v) == JsonView::List(outside_items(all)),
                        list_view(out@) == outside_items(all).take(it.index() as int),
                        forall|k: int|
                            0 <= k < it.index() ==> well_formed(#[trigger] outside_items(all)[k]),
                {
                    let ghost i = it.index() as int;
                    assert(json_of(item) == json_of(v)->List_0[i]);
                    let ghost held = out@;
                    out.push(Json::from_value(item));
                    assert(list_view(out@) =~= list_view(held).push(outside_items(all)[i]));
                    assert(list_view(out@) =~= outside_items(all).take(i + 1));
                }
                assert(outside_items(all).take(all.len() as int) =~= outside_items(all));
                proof {
                    list_holds_items(out);
                }
                Json::List(out)
            },
            Node::Object(es) => {
                let ghost all = es@;
                let mut out: Vec<(String, Json)> = Vec::new();
                for entry in it: es
                    invariant
                        it.seq() == all,
                        json_of(v) == JsonView::Object(outside_entries(all)),
                        record_view(Record { entries: out }) == outside_entries(all).take(
                            it.index() as int,
                        ),
                        forall|k: int|
                            0 <= k < it.index() ==> well_formed(
                                (#[trigger] outside_entries(all)[k]).1,
                            ),
                {
                    let ghost i = it.index() as int;
                    assert((entry.0@, json_of(entry.1)) == json_of(v)->Object_0[i]);
                    assert(decreases_to!(json_of(v) => json_of(v)->Object_0));
                    assert(decreases_to!(json_of(v)->Object_0 => json_of(v)->Object_0[i]));
                    assert(decreases_to!(json_of(v)->Object_0[i] => json_of(v)->Object_0[i].1));
                    let ghost held = out;
                    out.push((entry.0, Json::from_value(entry.1)));
                    assert(record_view(Record { entries: out }) =~= record_view(
                        Record { entries: held },
                    ).push(outside_entries(all)[i]));
                    assert(record_view(Record { entries: out }) =~= outside_entries(all).take(
                        i + 1,
                    ));
                }
                assert(outside_entries(all).take(all.len() as int) =~= outside_entries(all));
                Json::Object(Record { entries: out })
            },
        }
    }

    /// A `serde_json::Value` that holds the document.
    fn to_value(&self) -> (r: serde_json::Value)
        ensures
            json_of(r) == self@,
        decreases self@,
    {
        match self {
            Json::Null => close(Node::Null),
            Json::Bool(b) => close(Node::Bool(*b)),
            Json::Number(n) => close(Node::Number(n.clone())),
            Json::Text(s) => close(Node::Text(s.clone())),
            Json::List(items) => {
                let mut out: Vec<serde_json::Value> = Vec::new();
                let mut i: usize = 0;
                while i < items.len()
                    invariant
                        *self == Json::List(*items),
                        i <= items@.len(),
                        outside_items(out@) == list_view(items@).take(i as int),
                    decreases items@.len() - i,
                {
                    let ghost held = out@;
                    assert(items@[i as int]@ == self@->List_0[i as int]);
                    out.push(items[i].to_value());
                    assert(outside_items(out@) =~= outside_items(held).push(
                        list_view(items@)[i as int],
                    ));
                    i = i + 1;
                    assert(outside_items(out@) =~= list_view(items@).take(i as int));
                }
                assert(list_view(items@).take(i as int) =~= list_view(items@));
                proof {
                    list_holds_items(*items);
                }
                close(Node::List(out))
            },
            Json::Object(record) => {
                proof {
                    use_type_invariant(record);
                }
                let mut out: Vec<(String, serde_json::Value)> = Vec::new();
                let mut i: usize = 0;
                while i < record.entries.len()
                    invariant
                        *self == Json::Object(*record),
                        i <= record.entries@.len(),
                        outside_entries(out@) == record@.take(i as int),
                    decreases record.entries@.len() - i,
                {
                    let ghost held = out@;
                    assert(record.entries@[i as int].1@ == self@->Object_0[i as int].1);
                    assert(decreases_to!(self@ => self@->Object_0));
                    assert(decreases_to!(self@->Object_0 => self@->Object_0[i as int]));
                    assert(decreases_to!(self@->Object_0[i as int] => self@->Object_0[i as int].1));
                    out.push((record.entries[i].0.clone(), record.entries[i].1.to_value()));
                    assert(outside_entries(out@) =~= outside_entries(held).push(record@[i as int]));
                    i = i + 1;
                    assert(outside_entries(out@) =~= record@.take(i as int));
                }
                assert(record@.take(i as int) =~= record@);
                close(Node::Object(out))
            },
        }
    }

    /// The document that a text holds.
    pub fn parse(text: &str) -> (r: Option<Json>)
        ensures
            optional_view(r) == json_of_text(text@),
            r matches Some(j) ==> well_formed(j@),
    {
        match read_text(text) {
            Ok(v) => Some(Json::from_value(v)),
            Err(_) => None,
        }
    }

    /// The document that bytes hold.
    pub fn parse_bytes(bytes: &[u8]) -> (r: Option<Json>)
        ensures
            optional_view(r) == json_of_bytes(bytes@),
            r matches Some(j) ==> well_formed(j@),
    {
        match read_bytes(bytes) {
            Ok(v) => Some(Json::from_value(v)),
            Err(_) => None,
        }
    }

    /// The document as compact text, on one line.
    pub fn to_text(&self) -> (r: String)
        ensures
            r@ == json_text(self@),
            !r@.contains('\n'),
            trimmed(r@) == r@,
            reads_back(self@) ==> json_of_text(r@) == Some(self@),
    {
        print_value(&self.to_value())
    }

    /// A copy of the document.
    pub fn copy(&self) -> (r: Json)
        ensures
            r@ == self@,
            well_formed(r@),
    {
        Json::from_value(self.to_value())
    }

    /// A text.
    pub fn text(s: &str) -> (r: Json)
        ensures
            r@ == JsonView::Text(s@),
    {
        Json::Text(s.to_owned())
    }

    /// A text, or null.
    pub fn optional_text(o: &Option<String>) -> (r: Json)
        ensures
            r@ == text_or_null(optional_text(*o)),
    {
        match o {
            Some(s) => Json::Text(s.clone()),
            None => Json::Null,
        }
    }

    /// An integer.
    pub fn integer(i: i64) -> (r: Json)
        ensures
            r@ == JsonView::Number(number_from(i)),
            is_integer(r@),
    {
        Json::Number(number_of(i))
    }

    /// The value under a key, where the document is an object.
    pub fn get(&self, key: &str) -> (r: Option<&Json>)
        ensures
            optional_ref_view(r) == member(self@, key@),
    {
        match self {
            Json::Object(record) => record.get(key),
            _ => None,
        }
    }

    /// The document with a value under a key, where it is an object.
    pub fn with(self, key: &str, value: Json) -> (r: Json)
        ensures
            r@ == with_member(self@, key@, value@),
    {
        match self {
            Json::Object(record) => {
                let mut record = record;
                record.insert(key.to_owned(), value);
                Json::Object(record)
            },
            other => other,
        }
    }

    /// An object without entries.
    pub fn object() -> (r: Json)
        ensures
            r@ == empty_object(),
    {
        Json::Object(Record::new())
    }

    /// A list.
    pub fn list(items: Vec<Json>) -> (r: Json)
        ensures
            r@ == JsonView::List(list_view(items@)),
    {
        proof {
            list_holds_items(items);
        }
        Json::List(items)
    }

    /// The text under a key.
    pub fn get_text(&self, key: &str) -> (r: Option<&String>)
        ensures
            match r {
                Some(s) => text_member(self@, key@) == Some(s@),
                None => text_member(self@, key@) is None,
            },
    {
        match self.get(key) {
            Some(Json::Text(s)) => Some(s),
            _ => None,
        }
    }

    /// The list under a key.
    pub fn get_list(&self, key: &str) -> (r: Option<&Vec<Json>>)
        ensures
            match r {
                Some(items) => list_member(self@, key@) == Some(list_view(items@)),
                None => list_member(self@, key@) is None,
            },
    {
        match self.get(key) {
            Some(Json::List(items)) => {
                proof {
                    list_holds_items(*items);
                }
                Some(items)
            },
            _ => None,
        }
    }

    /// Whether the document is a number.
    pub fn is_number(&self) -> (r: bool)
        ensures
            r == (self@ is Number),
    {
        matches!(self, Json::Number(_))
    }

    /// Whether the document is an integer that `i64` or `u64` can hold.
    pub fn is_integer(&self) -> (r: bool)
        ensures
            r == is_integer(self@),
    {
        match self {
            Json::Number(n) => n.is_i64() || n.is_u64(),
            _ => false,
        }
    }
}

/// The document is an integer that `i64` or `u64` can hold.
pub open spec fn is_integer(j: JsonView) -> bool {
    j matches JsonView::Number(n) && (integer_value(n) matches Some(i) && i64::MIN <= i <= u64::MAX)
}

/// The text as a document, or null.
pub open spec fn text_or_null(o: Option<Seq<char>>) -> JsonView {
    match o {
        Some(s) => JsonView::Text(s),
        None => JsonView::Null,
    }
}

/// The value under a key, where the document is an object.
pub open spec fn member(j: JsonView, k: Seq<char>) -> Option<JsonView> {
    match j {
        JsonView::Object(e) => lookup(e, k),
        _ => None,
    }
}

/// The document with a value under a key, where it is an object.
pub open spec fn with_member(j: JsonView, k: Seq<char>, v: JsonView) -> JsonView {
    match j {
        JsonView::Object(e) => JsonView::Object(put(e, k, v)),
        _ => j,
    }
}

/// A value of a well-formed document is well-formed.
pub proof fn members_well_formed(j: JsonView, k: Seq<char>)
    requires
        well_formed(j),
        member(j, k) is Some,
    ensures
        well_formed(member(j, k)->0),
{
    let e = j->Object_0;
    let i = choose|i: int| key_at(e, k, i);
    assert(well_formed(e[i].1));
}

/// An object without entries.
pub open spec fn empty_object() -> JsonView {
    JsonView::Object(Entries::empty())
}

/// The text under a key.
pub open spec fn text_member(j: JsonView, k: Seq<char>) -> Option<Seq<char>> {
    match member(j, k) {
        Some(JsonView::Text(s)) => Some(s),
        _ => None,
    }
}

/// The list under a key.
pub open spec fn list_member(j: JsonView, k: Seq<char>) -> Option<Seq<JsonView>> {
    match member(j, k) {
        Some(JsonView::List(items)) => Some(items),
        _ => None,
    }
}

} // verus!
