//! What reading and changing documents means, said of characters, entries and
//! items themselves.

use crate::cdgc::{encoded, encoded_byte};
use crate::conformance::{record_drifts, DriftView, FieldView};
use crate::json::{
    ascending, has_key, key_at, keys_of, list_member, lookup, lookup_at, member, put_law, stripped,
    text_member, with_member, Entries, JsonView,
};
use crate::laws::{one_piece, pieces_of_two};
use crate::records::{all_drifts, at_path, objects_of, records_in, step_into, steps_of, strip_node};
use crate::text::{
    after_prefix, before, decimal, digit_char, digits_value, index_digits, index_value, is_digit,
    is_white, joined, lowercase, matches_at, occurs, pieces, trimmed, trimmed_end, trimmed_start,
};
use vstd::prelude::*;

verus! {

// ---- texts ----

/// A needle stands in a text exactly where the text is something, the needle and
/// something.
pub proof fn occurs_between(hay: Seq<char>, needle: Seq<char>)
    ensures
        forall|a: Seq<char>, b: Seq<char>|
            hay == #[trigger] (a + needle + b) ==> occurs(hay, needle),
        occurs(hay, needle) ==> exists|a: Seq<char>, b: Seq<char>| hay == #[trigger] (a + needle + b),
{
    assert forall|a: Seq<char>, b: Seq<char>| hay == #[trigger] (a + needle + b) implies occurs(
        hay,
        needle,
    ) by {
        assert(hay.subrange(a.len() as int, (a.len() + needle.len()) as int) =~= needle);
        assert(matches_at(hay, needle, a.len() as int));
    }
    if occurs(hay, needle) {
        let i = choose|i: int| matches_at(hay, needle, i);
        let a = hay.take(i);
        let b = hay.skip(i + needle.len());
        assert(hay =~= a + needle + b) by {
            assert(hay.subrange(i, i + needle.len()) == needle);
            assert forall|k: int| 0 <= k < hay.len() implies hay[k] == (a + needle + b)[k] by {
                if i <= k < i + needle.len() {
                    assert(hay.subrange(i, i + needle.len())[k - i] == hay[k]);
                }
            }
        }
    }
}

/// What follows a prefix is there exactly where the text is the prefix and
/// something.
pub proof fn prefix_is_taken_off(prefix: Seq<char>, rest: Seq<char>, s: Seq<char>)
    ensures
        after_prefix(prefix + rest, prefix) == Some(rest),
        after_prefix(s, prefix) matches Some(r) ==> s == prefix + r,
        matches_at(s, prefix, 0) <==> after_prefix(s, prefix) is Some,
{
    let all = prefix + rest;
    assert(all.subrange(0, prefix.len() as int) =~= prefix);
    assert(all.skip(prefix.len() as int) =~= rest);
    if matches_at(s, prefix, 0) {
        assert(s =~= s.subrange(0, prefix.len() as int) + s.skip(prefix.len() as int));
    }
}

/// Trimming takes white space off both ends and nothing else: the text is white
/// space, what is left, and white space, and what is left neither begins nor ends
/// with white space.
pub proof fn trimming_is_exact(s: Seq<char>) -> (ends: (Seq<char>, Seq<char>))
    ensures
        s == ends.0 + trimmed(s) + ends.1,
        forall|i: int| 0 <= i < ends.0.len() ==> is_white(#[trigger] ends.0[i]),
        forall|i: int| 0 <= i < ends.1.len() ==> is_white(#[trigger] ends.1[i]),
        trimmed(s).len() > 0 ==> !is_white(trimmed(s)[0]) && !is_white(trimmed(s).last()),
{
    let front = start_is_exact(s);
    let t = trimmed_start(s);
    let back = end_is_exact(t);
    assert(s =~= front + trimmed(s) + back);
    if trimmed(s).len() > 0 {
        assert(trimmed(s)[0] == t[0]);
    }
    (front, back)
}

/// Trimming the start takes leading white space off and nothing else.
pub proof fn start_is_exact(s: Seq<char>) -> (front: Seq<char>)
    ensures
        s == front + trimmed_start(s),
        forall|i: int| 0 <= i < front.len() ==> is_white(#[trigger] front[i]),
        trimmed_start(s).len() > 0 ==> !is_white(trimmed_start(s)[0]),
    decreases s.len(),
{
    if s.len() > 0 && is_white(s[0]) {
        let rest = start_is_exact(s.drop_first());
        let front = seq![s[0]] + rest;
        assert(s =~= seq![s[0]] + s.drop_first());
        assert(s =~= front + trimmed_start(s));
        front
    } else {
        assert(s =~= Seq::<char>::empty() + s);
        seq![]
    }
}

/// Trimming the end takes trailing white space off and nothing else.
proof fn end_is_exact(s: Seq<char>) -> (back: Seq<char>)
    ensures
        s == trimmed_end(s) + back,
        forall|i: int| 0 <= i < back.len() ==> is_white(#[trigger] back[i]),
        trimmed_end(s).len() > 0 ==> !is_white(trimmed_end(s).last()),
    decreases s.len(),
{
    if s.len() > 0 && is_white(s.last()) {
        let rest = end_is_exact(s.drop_last());
        let back = rest.push(s.last());
        assert(s =~= s.drop_last().push(s.last()));
        assert(s =~= trimmed_end(s) + back);
        back
    } else {
        assert(s =~= s + Seq::<char>::empty());
        seq![]
    }
}

/// The white space characters, one by one.
pub proof fn white_space_is_listed(c: char)
    ensures
        is_white(c) <==> (c == '\t' || c == '\n' || c == '\u{b}' || c == '\u{c}' || c == '\r' || c
            == ' ' || c == '\u{85}' || c == '\u{a0}' || c == '\u{1680}' || ('\u{2000}' <= c && c
            <= '\u{200a}') || c == '\u{2028}' || c == '\u{2029}' || c == '\u{202f}' || c
            == '\u{205f}' || c == '\u{3000}'),
{
    vstd::utf8::char_u32_cast(c, c as u32);
}

/// Lower case changes the ASCII letters `A` to `Z` of an ASCII text by 32 and
/// leaves every other character.
pub proof fn lower_case_of_ascii(s: Seq<char>)
    requires
        forall|i: int| 0 <= i < s.len() ==> (#[trigger] s[i] as u32) < 128,
    ensures
        lowercase(s).len() == s.len(),
        forall|i: int|
            0 <= i < s.len() ==> (#[trigger] lowercase(s)[i]) as u32 == (if 65 <= s[i] as u32
                <= 90 {
                s[i] as u32 + 32
            } else {
                s[i] as u32 as int
            }),
{
}

/// Joining puts the separator between each two parts: one part stands alone, and
/// one more part comes after the separator.
pub proof fn joining_adds_separators(parts: Seq<Seq<char>>, more: Seq<char>, sep: char)
    ensures
        joined(seq![more], sep) == more,
        parts.len() > 0 ==> joined(parts.push(more), sep) == joined(parts, sep) + seq![sep] + more,
        joined(Seq::<Seq<char>>::empty(), sep) == Seq::<char>::empty(),
{
    if parts.len() > 0 {
        assert(parts.push(more).drop_last() =~= parts);
        assert(joined(parts, sep).push(sep) + more =~= joined(parts, sep) + seq![sep] + more);
    }
}

/// Texts are ordered by the first character in which they differ, and a proper
/// prefix comes first.
pub proof fn order_goes_by_the_first_difference(
    p: Seq<char>,
    x: char,
    y: char,
    a: Seq<char>,
    b: Seq<char>,
)
    ensures
        (x as u32) < (y as u32) ==> before(p + seq![x] + a, p + seq![y] + b) && !before(
            p + seq![y] + b,
            p + seq![x] + a,
        ),
        before(p, p + seq![y] + b),
        !before(p + seq![y] + b, p),
    decreases p.len(),
{
    let l = p + seq![x] + a;
    let r = p + seq![y] + b;
    if p.len() > 0 {
        let q = p.drop_first();
        order_goes_by_the_first_difference(q, x, y, a, b);
        assert(l.drop_first() =~= q + seq![x] + a);
        assert(r.drop_first() =~= q + seq![y] + b);
        assert(l[0] == p[0] && r[0] == p[0]);
    } else {
        assert(l[0] == x && r[0] == y);
    }
}

// ---- numbers ----

/// A digit more is ten times the number and the digit.
pub proof fn digits_count_in_tens(s: Seq<char>, d: nat)
    requires
        d < 10,
    ensures
        digits_value(Seq::<char>::empty()) == 0,
        digits_value(s.push((48 + d) as char)) == 10 * digits_value(s) + d,
{
    let c = (48 + d) as char;
    assert(s.push(c).drop_last() =~= s);
    assert(c as u32 == 48 + d);
}

/// A number is written with digits that denote it, without leading zeros.
pub proof fn decimal_denotes_the_number(n: nat)
    ensures
        decimal(n).len() > 0,
        forall|i: int| 0 <= i < decimal(n).len() ==> 48 <= (#[trigger] decimal(n)[i]) as u32 <= 57,
        digits_value(decimal(n)) == n,
        n > 0 ==> decimal(n)[0] as u32 != 48,
    decreases n,
{
    if n < 10 {
        digits_count_in_tens(seq![], n);
        assert(decimal(n) =~= Seq::<char>::empty().push(digit_char(n)));
    } else {
        decimal_denotes_the_number(n / 10);
        digits_count_in_tens(decimal(n / 10), n % 10);
        assert(decimal(n)[0] == decimal(n / 10)[0]);
    }
}

/// A text is an index exactly where it is one or more of the digits `0` to `9`,
/// after at most one plus sign, and denotes a number that fits; the index is that
/// number.
pub proof fn index_is_a_plain_number(digits: Seq<char>, s: Seq<char>)
    ensures
        digits.len() > 0 && (forall|i: int|
            0 <= i < digits.len() ==> '0' <= #[trigger] digits[i] && digits[i] <= '9')
            && digits_value(digits) <= usize::MAX ==> index_value(digits) == Some(
            digits_value(digits) as usize,
        ) && index_value(seq!['+'] + digits) == Some(digits_value(digits) as usize),
        index_value(s) is Some ==> exists|d: Seq<char>|
            (s == d || s == seq!['+'] + d) && d.len() > 0 && #[trigger] digits_value(d)
                <= usize::MAX && forall|i: int|
                0 <= i < d.len() ==> '0' <= #[trigger] d[i] && d[i] <= '9',
{
    if digits.len() > 0 && forall|i: int|
        0 <= i < digits.len() ==> '0' <= #[trigger] digits[i] && digits[i] <= '9' {
        assert(digits[0] != '+');
        assert((seq!['+'] + digits).drop_first() =~= digits);
        assert forall|i: int| 0 <= i < digits.len() implies is_digit(#[trigger] digits[i]) by {}
    }
    if index_value(s) is Some {
        let d = index_digits(s);
        if s[0] == '+' {
            assert(s =~= seq!['+'] + d);
        }
        assert forall|i: int| 0 <= i < d.len() implies '0' <= #[trigger] d[i] && d[i] <= '9' by {
            assert(is_digit(d[i]));
            vstd::utf8::char_u32_cast(d[i], d[i] as u32);
        }
        assert(digits_value(d) <= usize::MAX);
    }
}

// ---- objects ----

/// The value under a key is that of the entry that has the key; without such an
/// entry there is none.
pub proof fn value_under_a_key(e: Entries, k: Seq<char>)
    requires
        ascending(e),
    ensures
        forall|j: int|
            0 <= j < e.len() && (#[trigger] e[j]).0 == k ==> lookup(e, k) == Some(e[j].1) && member(
                JsonView::Object(e),
                k,
            ) == Some(e[j].1),
        (forall|j: int| 0 <= j < e.len() ==> (#[trigger] e[j]).0 != k) ==> lookup(e, k) is None
            && member(JsonView::Object(e), k) is None,
{
    assert forall|j: int| 0 <= j < e.len() && (#[trigger] e[j]).0 == k implies lookup(e, k) == Some(
        e[j].1,
    ) by {
        assert(key_at(e, k, j));
        lookup_at(e, k, j);
    }
    if has_key(e, k) {
        let j = choose|j: int| key_at(e, k, j);
        assert(e[j].0 == k);
    }
}

/// The keys of an object are those of its entries, in order.
pub proof fn keys_are_those_of_the_entries(e: Entries)
    ensures
        keys_of(e).len() == e.len(),
        forall|i: int| 0 <= i < e.len() ==> #[trigger] keys_of(e)[i] == e[i].0,
{
}

/// Only an object has members; a text member is a text under the key, and a list
/// member a list.
pub proof fn members_by_kind(j: JsonView, k: Seq<char>)
    ensures
        !(j is Object) ==> member(j, k) is None,
        forall|t: Seq<char>| #[trigger]
            text_member(j, k) == Some(t) <==> member(j, k) == Some(JsonView::Text(t)),
        text_member(j, k) is None <==> !(member(j, k) matches Some(JsonView::Text(_))),
        forall|l: Seq<JsonView>| #[trigger]
            list_member(j, k) == Some(l) <==> member(j, k) == Some(JsonView::List(l)),
        list_member(j, k) is None <==> !(member(j, k) matches Some(JsonView::List(_))),
{
}

/// A member that is put is there, every other member stays, and a document that
/// is no object stays as it is.
pub proof fn putting_a_member(j: JsonView, k: Seq<char>, v: JsonView, q: Seq<char>)
    ensures
        !(j is Object) ==> with_member(j, k, v) == j,
        j matches JsonView::Object(e) && ascending(e) ==> member(with_member(j, k, v), k) == Some(v)
            && (q != k ==> member(with_member(j, k, v), q) == member(j, q)) && (with_member(
            j,
            k,
            v,
        ) matches JsonView::Object(n) && ascending(n)),
{
    match j {
        JsonView::Object(e) => {
            if ascending(e) {
                put_law(e, k, v);
            }
        },
        _ => {},
    }
}

// ---- paths ----

/// The steps of a path: none in the empty path, one in a text without a slash,
/// and in two paths with a slash between them those of both.
pub proof fn steps_are_the_parts_between_slashes(a: Seq<char>, b: Seq<char>, s: Seq<char>)
    ensures
        steps_of(Seq::<char>::empty()) == Seq::<Seq<char>>::empty(),
        s.len() > 0 && !s.contains('/') ==> steps_of(s) == seq![s],
        steps_of(a + seq!['/'] + b) == steps_of(a) + steps_of(b),
{
    let keep = |t: Seq<char>| t.len() > 0;
    reveal(Seq::filter);
    let none = Seq::<char>::empty();
    assert(pieces(none, '/') =~= seq![none]);
    let nothing = Seq::<Seq<char>>::empty();
    assert(nothing.filter(keep) =~= nothing);
    assert(seq![none].drop_last() =~= nothing);
    assert(!keep(seq![none].last()));
    assert(seq![none].filter(keep) =~= nothing);
    assert(steps_of(none) =~= Seq::<Seq<char>>::empty());
    if s.len() > 0 && !s.contains('/') {
        one_piece(s, '/');
        assert(seq![s].drop_last() =~= nothing);
        assert(keep(seq![s].last()));
        assert(seq![s].filter(keep) =~= nothing.push(s));
        assert(steps_of(s) =~= seq![s]);
    }
    pieces_of_two(a, b, '/');
    assert(a + seq!['/'] + b =~= a.push('/') + b);
    filter_of_two(pieces(a, '/'), pieces(b, '/'));
}

/// Leaving out empty texts of two lists.
proof fn filter_of_two(a: Seq<Seq<char>>, b: Seq<Seq<char>>)
    ensures
        (a + b).filter(|t: Seq<char>| t.len() > 0) == a.filter(|t: Seq<char>| t.len() > 0)
            + b.filter(|t: Seq<char>| t.len() > 0),
    decreases b.len(),
{
    reveal(Seq::filter);
    let keep = |t: Seq<char>| t.len() > 0;
    if b.len() == 0 {
        assert(a + b =~= a);
        assert(a.filter(keep) + b.filter(keep) =~= a.filter(keep));
    } else {
        filter_of_two(a, b.drop_last());
        assert((a + b).drop_last() =~= a + b.drop_last());
        assert((a + b).last() == b.last());
        assert((a + b).filter(keep) =~= a.filter(keep) + b.filter(keep));
    }
}

/// A path leads through objects by key and through lists by index, one step after
/// the other, and through nothing else.
pub proof fn paths_lead_step_by_step(
    j: JsonView,
    first: Seq<Seq<char>>,
    then: Seq<Seq<char>>,
    step: Seq<char>,
)
    ensures
        at_path(j, Seq::<Seq<char>>::empty()) == Some(j),
        at_path(j, first + then) == (match at_path(j, first) {
            Some(node) => at_path(node, then),
            None => None,
        }),
        j matches JsonView::Object(e) ==> at_path(j, seq![step]) == lookup(e, step),
        j matches JsonView::List(items) ==> at_path(j, seq![step]) == (match index_value(step) {
            Some(i) => if i < items.len() {
                Some(items[i as int])
            } else {
                None
            },
            None => None,
        }),
        !(j is Object) && !(j is List) ==> at_path(j, seq![step]) is None,
    decreases first.len(),
{
    let one = seq![step];
    assert(one.drop_first() =~= Seq::<Seq<char>>::empty());
    assert(at_path(j, one) == step_into(j, step)) by {
        match step_into(j, step) {
            Some(child) => {
                assert(at_path(child, one.drop_first()) == Some(child));
            },
            None => {},
        }
    }
    if first.len() == 0 {
        assert(first + then =~= then);
    } else {
        assert((first + then).drop_first() =~= first.drop_first() + then);
        match step_into(j, first[0]) {
            Some(child) => {
                paths_lead_step_by_step(child, first.drop_first(), then, step);
            },
            None => {},
        }
    }
}

// ---- records ----

/// The records of a list are its objects, in order: `at` are their positions.
pub proof fn records_are_the_objects(items: Seq<JsonView>) -> (at: Seq<int>)
    ensures
        records_in(Some(JsonView::List(items))).len() == at.len(),
        forall|k: int|
            0 <= k < at.len() ==> 0 <= #[trigger] at[k] < items.len() && items[at[k]]
                == JsonView::Object(records_in(Some(JsonView::List(items)))[k]),
        forall|k: int, l: int| 0 <= k < l < at.len() ==> #[trigger] at[k] < #[trigger] at[l],
        forall|i: int|
            0 <= i < items.len() && (exists|e: Entries|
                #[trigger] items[i] == JsonView::Object(e)) ==> at.contains(i),
    decreases items.len(),
{
    if items.len() == 0 {
        seq![]
    } else {
        let head = items.drop_last();
        let n = items.len() - 1;
        let before = records_are_the_objects(head);
        let at = if items[n] is Object {
            before.push(n)
        } else {
            before
        };
        assert forall|i: int| 0 <= i < head.len() implies head[i] == items[i] by {}
        assert forall|i: int| 0 <= i < items.len() && (exists|e: Entries|
            #[trigger] items[i] == JsonView::Object(e)) implies at.contains(i) by {
            if i < n {
                assert(head[i] == items[i]);
                assert(before.contains(i));
                let k = choose|k: int| 0 <= k < before.len() && before[k] == i;
                assert(at[k] == i);
            } else {
                assert(at[before.len() as int] == n);
            }
        }
        assert forall|k: int| 0 <= k < at.len() implies 0 <= #[trigger] at[k] < items.len()
            && items[at[k]] == JsonView::Object(objects_of(items)[k]) by {
            if k < before.len() {
                assert(at[k] == before[k]);
                assert(items[at[k]] == head[before[k]]);
            }
        }
        at
    }
}

/// An object is its own one record; any other document that is no list has none.
pub proof fn records_of_other_documents(e: Entries, b: bool, n: serde_json::Number, t: Seq<char>)
    ensures
        records_in(Some(JsonView::Object(e))) == seq![e],
        records_in(Some(JsonView::Null)).len() == 0,
        records_in(Some(JsonView::Bool(b))).len() == 0,
        records_in(Some(JsonView::Number(n))).len() == 0,
        records_in(Some(JsonView::Text(t))).len() == 0,
        records_in(None).len() == 0,
{
}

/// The drifts of records are those of each, one record after the other.
pub proof fn drifts_of_records_add_up(
    a: Seq<Entries>,
    b: Seq<Entries>,
    r: Entries,
    contract: Seq<FieldView>,
)
    ensures
        all_drifts(Seq::<Entries>::empty(), contract) == Seq::<DriftView>::empty(),
        all_drifts(seq![r], contract) == record_drifts(r, contract),
        all_drifts(a + b, contract) == all_drifts(a, contract) + all_drifts(b, contract),
    decreases b.len(),
{
    let one = seq![r];
    assert(one.drop_last() =~= Seq::<Entries>::empty());
    assert(all_drifts(Seq::<Entries>::empty(), contract) =~= Seq::<DriftView>::empty());
    assert(one.last() == r);
    assert(all_drifts(one, contract) =~= record_drifts(r, contract));
    if b.len() == 0 {
        assert(a + b =~= a);
        assert(all_drifts(a, contract) + all_drifts(b, contract) =~= all_drifts(a, contract));
    } else {
        drifts_of_records_add_up(a, b.drop_last(), r, contract);
        assert((a + b).drop_last() =~= a + b.drop_last());
        assert(all_drifts(a + b, contract) =~= all_drifts(a, contract) + all_drifts(b, contract));
    }
}

/// Stripping a node strips it where it is an object, strips each object of it
/// where it is a list, and leaves everything else.
pub proof fn strip_of_a_node(j: JsonView, names: Set<Seq<char>>)
    ensures
        j matches JsonView::Object(e) ==> strip_node(j, names) == JsonView::Object(
            stripped(e, names),
        ),
        j matches JsonView::List(items) ==> (strip_node(j, names) matches JsonView::List(now)
            && now.len() == items.len() && forall|i: int|
            #![trigger now[i]]
            #![trigger items[i]]
            0 <= i < items.len() ==> (items[i] matches JsonView::Object(e) ==> now[i]
                == JsonView::Object(stripped(e, names))) && (!(items[i] is Object) ==> now[i]
                == items[i])),
        !(j is Object) && !(j is List) ==> strip_node(j, names) == j,
{
}

/// A path segment is the segments of its bytes, one after the other: a letter, a
/// digit, a hyphen, a full stop, an underscore or a tilde of ASCII is itself, every
/// other byte a percent sign and its two upper-case hexadecimal digits.
pub proof fn segments_byte_by_byte(a: Seq<u8>, b: Seq<u8>, x: u8)
    ensures
        encoded(Seq::<u8>::empty()) == Seq::<char>::empty(),
        encoded(a + b) == encoded(a) + encoded(b),
        ({
            let kept = 'A' as u8 <= x <= 'Z' as u8 || 'a' as u8 <= x <= 'z' as u8 || '0' as u8 <= x
                <= '9' as u8 || x == '-' as u8 || x == '.' as u8 || x == '_' as u8 || x
                == '~' as u8;
            let digits = "0123456789ABCDEF"@;
            encoded(seq![x]) == if kept {
                seq![x as char]
            } else {
                seq!['%', digits[x as int / 16], digits[x as int % 16]]
            }
        }),
    decreases b.len(),
{
    assert(encoded(Seq::<u8>::empty()) =~= seq![]);
    assert(seq![x].drop_last() =~= Seq::<u8>::empty());
    assert(encoded(seq![x]) =~= encoded_byte(x));
    reveal_strlit("0123456789ABCDEF");
    if b.len() == 0 {
        assert(a + b =~= a);
        assert(b =~= seq![]);
        assert(encoded(a) + encoded(b) =~= encoded(a));
    } else {
        segments_byte_by_byte(a, b.drop_last(), x);
        assert((a + b).drop_last() =~= a + b.drop_last());
        assert(encoded(a + b) =~= encoded(a) + encoded(b));
    }
}

} // verus!
