//! What drifts and decisions mean, said of records, kinds, names and actions
//! themselves.

use crate::conformance::{
    action_for, action_named, block_of, calls_for_removal, calls_for_report, contract_drifts,
    decision_of, field_drifts, first_match, governed, has_type, holds_any, log_lines, record_drifts,
    removed_fields, token_of, tokens_of, unexpected_drifts, Action, Actions, DriftKind, DriftView,
    FieldView,
};
use crate::json::{
    ascending, has_key, integer_value, key_at, keys_of, lookup, lookup_at, stripped, Entries,
    JsonView,
};
use crate::laws::{
    drifts_are_exact, in_either, is_leak, is_missing, is_mistyped, is_on, summary_is_exact,
};
use crate::text::{joined, lowercase, matches_at, occurs};
use vstd::prelude::*;

verus! {

// ---- names ----

/// Each action has one name, and a text that is none of these names is off.
pub proof fn actions_have_their_names(s: Seq<char>)
    ensures
        action_named(s) == Action::Log <==> s == "log"@,
        action_named(s) == Action::Inform <==> s == "inform"@,
        action_named(s) == Action::Strip <==> s == "strip"@,
        action_named(s) == Action::Reject <==> s == "reject"@,
        action_named(s) == Action::Off <==> s != "log"@ && s != "inform"@ && s != "strip"@ && s
            != "reject"@,
{
    reveal_strlit("log");
    reveal_strlit("inform");
    reveal_strlit("strip");
    reveal_strlit("reject");
    assert("log"@.len() == 3 && "inform"@.len() == 6 && "strip"@.len() == 5 && "reject"@.len()
        == 6);
    assert("inform"@[0] == 'i' && "reject"@[0] == 'r');
}

/// Each kind of drift has its own setting, whatever the other settings are.
pub proof fn actions_go_by_kind(a: Actions)
    ensures
        action_for(a, DriftKind::Unexpected) == a.unexpected,
        action_for(a, DriftKind::MissingRequired) == a.missing_required,
        action_for(a, DriftKind::TypeMismatch) == a.type_mismatch,
        action_for(a, DriftKind::Sensitive) == a.sensitive,
{
}

// ---- decisions ----

/// The decision, kind by kind and action by action: any drift set to reject
/// rejects; the fields to strip are those of the unexpected, mistyped and
/// sensitive fields set to strip, and no others; and a report is due for every
/// drift set to inform and for a missing field set to strip.
pub proof fn decision_by_kind_and_action(drifts: Seq<DriftView>, a: Actions)
    ensures
        ({
            let d = decision_of(drifts, a);
            let set_to = |k: DriftKind|
                match k {
                    DriftKind::Unexpected => a.unexpected,
                    DriftKind::MissingRequired => a.missing_required,
                    DriftKind::TypeMismatch => a.type_mismatch,
                    DriftKind::Sensitive => a.sensitive,
                };
            &&& d.reject <==> exists|i: int|
                0 <= i < drifts.len() && set_to((#[trigger] drifts[i]).kind) == Action::Reject
            &&& forall|f: Seq<char>| #[trigger]
                d.strip.contains(f) <==> exists|i: int|
                    0 <= i < drifts.len() && (#[trigger] drifts[i]).field == f && (drifts[i].kind
                        == DriftKind::Unexpected || drifts[i].kind == DriftKind::TypeMismatch
                        || drifts[i].kind == DriftKind::Sensitive) && set_to(drifts[i].kind)
                        == Action::Strip
            &&& d.inform <==> exists|i: int|
                0 <= i < drifts.len() && (set_to((#[trigger] drifts[i]).kind) == Action::Inform || (
                drifts[i].kind == DriftKind::MissingRequired && set_to(drifts[i].kind)
                    == Action::Strip))
        }),
{
    let d = decision_of(drifts, a);
    assert forall|i: int| 0 <= i < drifts.len() implies calls_for_removal(#[trigger] drifts[i], a)
        == (drifts[i].kind != DriftKind::MissingRequired && action_for(a, drifts[i].kind)
        == Action::Strip) by {}
    assert(d.strip == removed_fields(drifts, a));
    if d.reject {
        let i = choose|i: int|
            0 <= i < drifts.len() && action_for(a, (#[trigger] drifts[i]).kind) == Action::Reject;
        assert(action_for(a, drifts[i].kind) == Action::Reject);
    }
    if d.inform {
        let i = choose|i: int| 0 <= i < drifts.len() && calls_for_report(#[trigger] drifts[i], a);
        assert(calls_for_report(drifts[i], a));
    }
    assert forall|i: int| 0 <= i < drifts.len() && calls_for_report(
        #[trigger] drifts[i],
        a,
    ) implies d.inform by {}
    assert forall|i: int| 0 <= i < drifts.len() && action_for(a, (#[trigger] drifts[i]).kind)
        == Action::Reject implies d.reject by {}
}

/// The summary lists the drifts that are not off, each once, at its first
/// occurrence and in the order of these: `at` are the positions. A drift is
/// listed by `+`, `-`, `~` or `!` for its kind, and its field.
pub proof fn summary_lists_first_occurrences(drifts: Seq<DriftView>, a: Actions) -> (at: Seq<int>)
    ensures
        ({
            let set_to = |k: DriftKind|
                match k {
                    DriftKind::Unexpected => a.unexpected,
                    DriftKind::MissingRequired => a.missing_required,
                    DriftKind::TypeMismatch => a.type_mismatch,
                    DriftKind::Sensitive => a.sensitive,
                };
            let said = |d: DriftView|
                seq![match d.kind {
                    DriftKind::Unexpected => '+',
                    DriftKind::MissingRequired => '-',
                    DriftKind::TypeMismatch => '~',
                    DriftKind::Sensitive => '!',
                }] + d.field;
            &&& decision_of(drifts, a).summary == joined(
                at.map_values(|i: int| said(drifts[i])),
                ',',
            )
            &&& forall|k: int|
                0 <= k < at.len() ==> 0 <= #[trigger] at[k] < drifts.len() && set_to(
                    drifts[at[k]].kind,
                ) != Action::Off
            &&& forall|k: int, l: int|
                0 <= k < l < at.len() ==> #[trigger] at[k] < #[trigger] at[l] && said(
                    drifts[at[k]],
                ) != said(drifts[at[l]])
            &&& forall|i: int|
                0 <= i < drifts.len() && set_to((#[trigger] drifts[i]).kind) != Action::Off
                    ==> exists|k: int|
                    0 <= k < at.len() && #[trigger] at[k] <= i && said(drifts[at[k]]) == said(
                        drifts[i],
                    )
        }),
{
    let at = places_of(drifts, a);
    let tokens = tokens_of(drifts, a);
    places_have_tokens(drifts, a);
    places_ascend(drifts, a);
    summary_is_exact(drifts, a);
    assert(at.map_values(|i: int| token_of(drifts[i])) =~= tokens_of(drifts, a));
    let said = |d: DriftView|
        seq![match d.kind {
            DriftKind::Unexpected => '+',
            DriftKind::MissingRequired => '-',
            DriftKind::TypeMismatch => '~',
            DriftKind::Sensitive => '!',
        }] + d.field;
    assert forall|d: DriftView| #[trigger] said(d) == token_of(d) by {}
    assert(at.map_values(|i: int| said(drifts[i])) =~= at.map_values(
        |i: int| token_of(drifts[i]),
    ));
    assert forall|k: int, l: int| 0 <= k < l < at.len() implies #[trigger] at[k] < #[trigger] at[l]
        && said(drifts[at[k]]) != said(drifts[at[l]]) by {
        assert(tokens[k] != tokens[l]);
    }
    assert forall|i: int| 0 <= i < drifts.len() && is_on(drifts[i], a) implies exists|k: int|
        0 <= k < at.len() && #[trigger] at[k] <= i && said(drifts[at[k]]) == said(
            #[trigger] drifts[i],
        ) by {
        let k = place_of_drift(drifts, a, i);
        assert(at[k] <= i && said(drifts[at[k]]) == said(drifts[i]));
    }
    at
}

/// Where the summary's tokens occur first.
spec fn places_of(drifts: Seq<DriftView>, a: Actions) -> Seq<int>
    decreases drifts.len(),
{
    if drifts.len() == 0 {
        seq![]
    } else {
        let head = drifts.drop_last();
        let last = drifts.last();
        if is_on(last, a) && !tokens_of(head, a).contains(token_of(last)) {
            places_of(head, a).push(head.len() as int)
        } else {
            places_of(head, a)
        }
    }
}

/// Each place is that of a drift that is not off, and has its token.
proof fn places_have_tokens(drifts: Seq<DriftView>, a: Actions)
    ensures
        places_of(drifts, a).len() == tokens_of(drifts, a).len(),
        forall|k: int|
            0 <= k < places_of(drifts, a).len() ==> 0 <= #[trigger] places_of(drifts, a)[k]
                < drifts.len() && is_on(drifts[places_of(drifts, a)[k]], a) && token_of(
                drifts[places_of(drifts, a)[k]],
            ) == tokens_of(drifts, a)[k],
    decreases drifts.len(),
{
    if drifts.len() > 0 {
        let head = drifts.drop_last();
        places_have_tokens(head, a);
        let at = places_of(drifts, a);
        let before = places_of(head, a);
        assert forall|k: int| 0 <= k < at.len() implies 0 <= #[trigger] at[k] < drifts.len()
            && is_on(drifts[at[k]], a) && token_of(drifts[at[k]]) == tokens_of(drifts, a)[k] by {
            if k < before.len() {
                assert(at[k] == before[k]);
                assert(drifts[at[k]] == head[before[k]]);
            }
        }
    }
}

/// The places ascend.
proof fn places_ascend(drifts: Seq<DriftView>, a: Actions)
    ensures
        forall|k: int, l: int|
            0 <= k < l < places_of(drifts, a).len() ==> #[trigger] places_of(drifts, a)[k]
                < #[trigger] places_of(drifts, a)[l],
    decreases drifts.len(),
{
    if drifts.len() > 0 {
        let head = drifts.drop_last();
        places_ascend(head, a);
        places_have_tokens(head, a);
    }
}

/// A drift that is not off has a place at or before its own.
proof fn place_of_drift(drifts: Seq<DriftView>, a: Actions, i: int) -> (k: int)
    requires
        0 <= i < drifts.len(),
        is_on(drifts[i], a),
    ensures
        0 <= k < places_of(drifts, a).len(),
        places_of(drifts, a)[k] <= i,
        tokens_of(drifts, a)[k] == token_of(drifts[i]),
    decreases drifts.len(),
{
    let head = drifts.drop_last();
    let done = tokens_of(head, a);
    places_have_tokens(head, a);
    places_have_tokens(drifts, a);
    if i < head.len() {
        place_of_drift(head, a, i)
    } else if done.contains(token_of(drifts[i])) {
        let k = choose|k: int| 0 <= k < done.len() && done[k] == token_of(drifts[i]);
        assert(0 <= places_of(head, a)[k] < head.len());
        k
    } else {
        done.len() as int
    }
}

/// The log has one line for every drift set to log, in order: `at` are the
/// positions. A line is the kind's name, a colon and the field.
pub proof fn log_has_a_line_per_logged_drift(drifts: Seq<DriftView>, a: Actions) -> (at: Seq<int>)
    ensures
        ({
            let set_to = |k: DriftKind|
                match k {
                    DriftKind::Unexpected => a.unexpected,
                    DriftKind::MissingRequired => a.missing_required,
                    DriftKind::TypeMismatch => a.type_mismatch,
                    DriftKind::Sensitive => a.sensitive,
                };
            let line = |d: DriftView|
                (match d.kind {
                    DriftKind::Unexpected => "Unexpected"@,
                    DriftKind::MissingRequired => "MissingRequired"@,
                    DriftKind::TypeMismatch => "TypeMismatch"@,
                    DriftKind::Sensitive => "Sensitive"@,
                }).push(':') + d.field;
            &&& decision_of(drifts, a).logged == at.map_values(|i: int| line(drifts[i]))
            &&& forall|k: int|
                0 <= k < at.len() ==> 0 <= #[trigger] at[k] < drifts.len() && set_to(
                    drifts[at[k]].kind,
                ) == Action::Log
            &&& forall|k: int, l: int|
                0 <= k < l < at.len() ==> #[trigger] at[k] < #[trigger] at[l]
            &&& forall|i: int|
                0 <= i < drifts.len() && set_to((#[trigger] drifts[i]).kind) == Action::Log
                    ==> at.contains(i)
        }),
    decreases drifts.len(),
{
    let line = |d: DriftView|
        (match d.kind {
            DriftKind::Unexpected => "Unexpected"@,
            DriftKind::MissingRequired => "MissingRequired"@,
            DriftKind::TypeMismatch => "TypeMismatch"@,
            DriftKind::Sensitive => "Sensitive"@,
        }).push(':') + d.field;
    if drifts.len() == 0 {
        let at = Seq::<int>::empty();
        assert(log_lines(drifts, a) =~= at.map_values(|i: int| line(drifts[i])));
        at
    } else {
        let head = drifts.drop_last();
        let n = drifts.len() - 1;
        let before = log_has_a_line_per_logged_drift(head, a);
        let logged = action_for(a, drifts[n].kind) == Action::Log;
        let at = if logged {
            before.push(n)
        } else {
            before
        };
        assert forall|i: int| 0 <= i < head.len() implies head[i] == drifts[i] by {}
        assert(log_lines(drifts, a) =~= at.map_values(|i: int| line(drifts[i])));
        assert forall|i: int| 0 <= i < drifts.len() && action_for(a, (#[trigger] drifts[i]).kind)
            == Action::Log implies at.contains(i) by {
            if i < n {
                assert(head[i] == drifts[i]);
                assert(before.contains(i));
                let k = choose|k: int| 0 <= k < before.len() && before[k] == i;
                assert(at[k] == i);
            } else {
                assert(at[before.len() as int] == n);
            }
        }
        at
    }
}

// ---- drifts ----

/// The value that ascending entries have under a key, found among the entries.
proof fn value_among_entries(e: Entries, k: Seq<char>)
    requires
        ascending(e),
    ensures
        lookup(e, k) is None <==> forall|j: int| 0 <= j < e.len() ==> (#[trigger] e[j]).0 != k,
        forall|j: int|
            0 <= j < e.len() && (#[trigger] e[j]).0 == k ==> lookup(e, k) == Some(e[j].1),
{
    assert forall|j: int| 0 <= j < e.len() && (#[trigger] e[j]).0 == k implies lookup(e, k) == Some(
        e[j].1,
    ) by {
        assert(key_at(e, k, j));
        lookup_at(e, k, j);
    }
    if lookup(e, k) is Some {
        let j = choose|j: int| key_at(e, k, j);
        assert(e[j].0 == k);
    }
}

/// A field is missing exactly where a required field of the contract has its name
/// and no entry of the record has it.
pub proof fn missing_means_absent(record: Entries, contract: Seq<FieldView>, f: Seq<char>)
    requires
        ascending(record),
    ensures
        record_drifts(record, contract).contains(
            DriftView { kind: DriftKind::MissingRequired, field: f },
        ) <==> (forall|j: int| 0 <= j < record.len() ==> (#[trigger] record[j]).0 != f)
            && exists|i: int|
            0 <= i < contract.len() && (#[trigger] contract[i]).name == f && contract[i].required,
{
    let d = DriftView { kind: DriftKind::MissingRequired, field: f };
    drifts_are_exact(record, contract, d);
    value_among_entries(record, f);
    if is_missing(record, contract, f) {
        let i = choose|i: int|
            0 <= i < contract.len() && (#[trigger] contract[i]).name == f && contract[i].required
                && lookup(record, f) is None;
        assert(contract[i].name == f && contract[i].required);
    }
}

/// A field leaks exactly where a sensitive field of the contract has its name and
/// an entry of the record has it, whatever its value is.
pub proof fn leak_means_present(record: Entries, contract: Seq<FieldView>, f: Seq<char>)
    requires
        ascending(record),
    ensures
        record_drifts(record, contract).contains(
            DriftView { kind: DriftKind::Sensitive, field: f },
        ) <==> (exists|j: int| 0 <= j < record.len() && (#[trigger] record[j]).0 == f)
            && exists|i: int|
            0 <= i < contract.len() && (#[trigger] contract[i]).name == f && contract[i].sensitive,
{
    let d = DriftView { kind: DriftKind::Sensitive, field: f };
    drifts_are_exact(record, contract, d);
    value_among_entries(record, f);
    if is_leak(record, contract, f) {
        let i = choose|i: int|
            0 <= i < contract.len() && (#[trigger] contract[i]).name == f && contract[i].sensitive
                && lookup(record, f) is Some;
        assert(contract[i].name == f && contract[i].sensitive);
    }
}

/// A field is unexpected exactly where an entry of the record has its name and no
/// field of the contract has it.
pub proof fn unexpected_means_not_in_the_contract(
    record: Entries,
    contract: Seq<FieldView>,
    f: Seq<char>,
)
    requires
        ascending(record),
    ensures
        record_drifts(record, contract).contains(
            DriftView { kind: DriftKind::Unexpected, field: f },
        ) <==> (exists|j: int| 0 <= j < record.len() && (#[trigger] record[j]).0 == f)
            && forall|i: int| 0 <= i < contract.len() ==> (#[trigger] contract[i]).name != f,
{
    let d = DriftView { kind: DriftKind::Unexpected, field: f };
    drifts_are_exact(record, contract, d);
    value_among_entries(record, f);
}

/// A present value is of another type than declared exactly where the type's
/// name, in lower case, is
/// - `string` and the value is no text,
/// - `number`, `float`, `double` or `decimal` and it is no number,
/// - `integer` or `int` and it is no number that holds an integer of 64 bits,
/// - `boolean` or `bool` and it is neither true nor false,
/// - `object` and it is no object,
/// - `array` and it is no list.
///
/// A value of any other declared type is never flagged.
pub proof fn mismatch_by_type_name(
    record: Entries,
    contract: Seq<FieldView>,
    f: Seq<char>,
)
    requires
        ascending(record),
    ensures
        record_drifts(record, contract).contains(
            DriftView { kind: DriftKind::TypeMismatch, field: f },
        ) <==> exists|i: int, j: int|
            #![trigger contract[i], record[j]]
            0 <= i < contract.len() && 0 <= j < record.len() && contract[i].name == f
                && record[j].0 == f && (contract[i].ftype matches Some(t) && {
                let name = lowercase(t);
                let v = record[j].1;
                ||| name == "string"@ && !(exists|s: Seq<char>| v == JsonView::Text(s))
                ||| (name == "number"@ || name == "float"@ || name == "double"@ || name
                    == "decimal"@) && !(exists|n: serde_json::Number| v == JsonView::Number(n))
                ||| (name == "integer"@ || name == "int"@) && !(exists|n: serde_json::Number|
                    v == JsonView::Number(n) && (#[trigger] integer_value(n) matches Some(x)
                        && i64::MIN <= x <= u64::MAX))
                ||| (name == "boolean"@ || name == "bool"@) && v != JsonView::Bool(true) && v
                    != JsonView::Bool(false)
                ||| name == "object"@ && !(exists|e: Entries| v == JsonView::Object(e))
                ||| name == "array"@ && !(exists|l: Seq<JsonView>| v == JsonView::List(l))
            }),
{
    let d = DriftView { kind: DriftKind::TypeMismatch, field: f };
    drifts_are_exact(record, contract, d);
    value_among_entries(record, f);
    type_names_differ();
    let flagged = |t: Seq<char>, v: JsonView|
        {
            let name = lowercase(t);
            ||| name == "string"@ && !(exists|s: Seq<char>| v == JsonView::Text(s))
            ||| (name == "number"@ || name == "float"@ || name == "double"@ || name == "decimal"@)
                && !(exists|n: serde_json::Number| v == JsonView::Number(n))
            ||| (name == "integer"@ || name == "int"@) && !(exists|n: serde_json::Number|
                v == JsonView::Number(n) && (#[trigger] integer_value(n) matches Some(x) && i64::MIN
                    <= x <= u64::MAX))
            ||| (name == "boolean"@ || name == "bool"@) && v != JsonView::Bool(true) && v
                != JsonView::Bool(false)
            ||| name == "object"@ && !(exists|e: Entries| v == JsonView::Object(e))
            ||| name == "array"@ && !(exists|l: Seq<JsonView>| v == JsonView::List(l))
        };
    assert forall|t: Seq<char>, v: JsonView| #[trigger] flagged(t, v) == !has_type(
        lowercase(t),
        v,
    ) by {
        match v {
            JsonView::Text(s) => {
                assert(v == JsonView::Text(s));
            },
            JsonView::Bool(b) => {
                assert(b || !b);
            },
            JsonView::Number(n) => {
                assert(v == JsonView::Number(n));
            },
            JsonView::List(l) => {
                assert(v == JsonView::List(l));
            },
            JsonView::Object(e) => {
                assert(v == JsonView::Object(e));
            },
            JsonView::Null => {},
        }
    }
    if is_mistyped(record, contract, f) {
        let i = choose|i: int|
            0 <= i < contract.len() && (#[trigger] contract[i]).name == f && (
            contract[i].ftype matches Some(t) && lookup(record, f) matches Some(v) && !has_type(
                lowercase(t),
                v,
            ));
        let j = choose|j: int| key_at(record, f, j);
        assert(record[j].0 == f && lookup(record, f) == Some(record[j].1));
        assert(flagged(contract[i].ftype->0, record[j].1));
        assert(contract[i].name == f);
    }
    if exists|i: int, j: int|
        #![trigger contract[i], record[j]]
        0 <= i < contract.len() && 0 <= j < record.len() && contract[i].name == f && record[j].0
            == f && (contract[i].ftype matches Some(t) && flagged(t, record[j].1)) {
        let (i, j) = choose|i: int, j: int|
            #![trigger contract[i], record[j]]
            0 <= i < contract.len() && 0 <= j < record.len() && contract[i].name == f
                && record[j].0 == f && (contract[i].ftype matches Some(t) && flagged(
                t,
                record[j].1,
            ));
        assert(lookup(record, f) == Some(record[j].1));
        assert(!has_type(lowercase(contract[i].ftype->0), record[j].1));
        assert(contract[i].name == f);
        assert(is_mistyped(record, contract, f));
    }
}

/// The type names are different texts.
proof fn type_names_differ()
    ensures
        "string"@.len() == 6 && "string"@[0] == 's',
        "number"@.len() == 6 && "number"@[0] == 'n',
        "float"@.len() == 5 && "float"@[0] == 'f',
        "double"@.len() == 6 && "double"@[0] == 'd',
        "decimal"@.len() == 7 && "decimal"@[0] == 'd',
        "integer"@.len() == 7 && "integer"@[0] == 'i',
        "int"@.len() == 3,
        "boolean"@.len() == 7 && "boolean"@[0] == 'b',
        "bool"@.len() == 4,
        "object"@.len() == 6 && "object"@[0] == 'o',
        "array"@.len() == 5 && "array"@[0] == 'a',
{
    reveal_strlit("string");
    reveal_strlit("number");
    reveal_strlit("float");
    reveal_strlit("double");
    reveal_strlit("decimal");
    reveal_strlit("integer");
    reveal_strlit("int");
    reveal_strlit("boolean");
    reveal_strlit("bool");
    reveal_strlit("object");
    reveal_strlit("array");
}

// ---- the order of drifts ----

/// Where the drifts at one field stand: twice the field's position, and one more
/// for a mismatch.
spec fn field_places(record: Entries, c: FieldView, i: int) -> Seq<int> {
    match lookup(record, c.name) {
        None => if c.required {
            seq![2 * i]
        } else {
            seq![]
        },
        Some(v) => {
            let leak = if c.sensitive {
                seq![2 * i]
            } else {
                seq![]
            };
            match c.ftype {
                Some(t) if !has_type(lowercase(t), v) => leak.push(2 * i + 1),
                _ => leak,
            }
        },
    }
}

/// Where the drifts at the fields of a contract stand.
spec fn contract_places(record: Entries, contract: Seq<FieldView>) -> Seq<int>
    decreases contract.len(),
{
    if contract.len() == 0 {
        seq![]
    } else {
        contract_places(record, contract.drop_last()) + field_places(
            record,
            contract.last(),
            contract.len() - 1,
        )
    }
}

/// Where the unexpected keys stand.
spec fn key_places(keys: Seq<Seq<char>>, contract: Seq<FieldView>) -> Seq<int>
    decreases keys.len(),
{
    if keys.len() == 0 {
        seq![]
    } else {
        let done = key_places(keys.drop_last(), contract);
        if governed(contract, keys.last()) {
            done
        } else {
            done.push(keys.len() - 1)
        }
    }
}

/// The places of the drifts at the fields of a contract.
proof fn contract_places_ascend(record: Entries, contract: Seq<FieldView>)
    ensures
        contract_places(record, contract).len() == contract_drifts(record, contract).len(),
        forall|k: int, l: int|
            0 <= k < l < contract_places(record, contract).len() ==> #[trigger] contract_places(
                record,
                contract,
            )[k] < #[trigger] contract_places(record, contract)[l],
        forall|k: int|
            0 <= k < contract_places(record, contract).len() ==> ({
                let p = #[trigger] contract_places(record, contract)[k];
                let d = contract_drifts(record, contract)[k];
                &&& 0 <= p < 2 * contract.len()
                &&& d.field == contract[p / 2].name
                &&& d.kind != DriftKind::Unexpected
                &&& p % 2 == 1 <==> d.kind == DriftKind::TypeMismatch
            }),
    decreases contract.len(),
{
    if contract.len() > 0 {
        let head = contract.drop_last();
        contract_places_ascend(record, head);
        let before = contract_places(record, head);
        let all = contract_places(record, contract);
        let drifts = contract_drifts(record, contract);
        let done = contract_drifts(record, head);
        let n = contract.len() - 1;
        let more = field_places(record, contract.last(), n);
        assert forall|k: int| 0 <= k < all.len() implies ({
            let p = #[trigger] all[k];
            let d = drifts[k];
            &&& 0 <= p < 2 * contract.len()
            &&& d.field == contract[p / 2].name
            &&& d.kind != DriftKind::Unexpected
            &&& p % 2 == 1 <==> d.kind == DriftKind::TypeMismatch
        }) by {
            if k < before.len() {
                assert(all[k] == before[k]);
                assert(drifts[k] == done[k]);
                assert(head[before[k] / 2] == contract[before[k] / 2]);
            } else {
                assert(all[k] == more[k - before.len()]);
                assert(drifts[k] == field_drifts(record, contract.last())[k - before.len()]);
                assert(contract.last() == contract[n]);
                assert((2 * n) / 2 == n && (2 * n + 1) / 2 == n);
            }
        }
        assert forall|k: int, l: int| 0 <= k < l < all.len() implies #[trigger] all[k]
            < #[trigger] all[l] by {
            if l < before.len() {
                assert(all[k] == before[k] && all[l] == before[l]);
            } else if k < before.len() {
                assert(all[k] == before[k] && all[l] == more[l - before.len()]);
            } else {
                assert(all[k] == more[k - before.len()] && all[l] == more[l - before.len()]);
            }
        }
    }
}

/// The places of the unexpected keys.
proof fn key_places_ascend(keys: Seq<Seq<char>>, contract: Seq<FieldView>)
    ensures
        key_places(keys, contract).len() == unexpected_drifts(keys, contract).len(),
        forall|k: int, l: int|
            0 <= k < l < key_places(keys, contract).len() ==> #[trigger] key_places(
                keys,
                contract,
            )[k] < #[trigger] key_places(keys, contract)[l],
        forall|k: int|
            0 <= k < key_places(keys, contract).len() ==> 0 <= #[trigger] key_places(
                keys,
                contract,
            )[k] < keys.len() && unexpected_drifts(keys, contract)[k] == (DriftView {
                kind: DriftKind::Unexpected,
                field: keys[key_places(keys, contract)[k]],
            }),
    decreases keys.len(),
{
    if keys.len() > 0 {
        key_places_ascend(keys.drop_last(), contract);
    }
}

/// Every field of the contract has the drifts in its place that it has alone.
proof fn field_has_its_places(record: Entries, contract: Seq<FieldView>, i: int)
    requires
        0 <= i < contract.len(),
    ensures
        contract_places(record, contract).contains(2 * i) <==> field_places(
            record,
            contract[i],
            i,
        ).contains(2 * i),
        contract_places(record, contract).contains(2 * i + 1) <==> field_places(
            record,
            contract[i],
            i,
        ).contains(2 * i + 1),
    decreases contract.len(),
{
    let head = contract.drop_last();
    let n = contract.len() - 1;
    let before = contract_places(record, head);
    let more = field_places(record, contract.last(), n);
    contract_places_ascend(record, head);
    in_either(before, more, 2 * i);
    in_either(before, more, 2 * i + 1);
    if i < n {
        field_has_its_places(record, head, i);
        assert(head[i] == contract[i]);
        assert(!more.contains(2 * i) && !more.contains(2 * i + 1));
    } else {
        assert(!before.contains(2 * i) && !before.contains(2 * i + 1));
    }
}

/// Drifts come field by field in the order of the contract, a missing or
/// sensitive field before its mismatch, and then key by key in the order of the
/// record; each divergence is listed once for the field or key that has it.
/// `place` says where a drift stands in that order.
pub proof fn drifts_come_in_order(record: Entries, contract: Seq<FieldView>) -> (place: Seq<int>)
    requires
        ascending(record),
    ensures
        ({
            let all = record_drifts(record, contract);
            let n = contract.len() as int;
            &&& place.len() == all.len()
            &&& forall|k: int, l: int|
                0 <= k < l < place.len() ==> #[trigger] place[k] < #[trigger] place[l]
            &&& forall|k: int|
                0 <= k < place.len() && 0 <= #[trigger] place[k] < 2 * n ==> all[k].field
                    == contract[place[k] / 2].name && all[k].kind != DriftKind::Unexpected && (
                place[k] % 2 == 1 <==> all[k].kind == DriftKind::TypeMismatch)
            &&& forall|k: int|
                0 <= k < place.len() && !(0 <= #[trigger] place[k] < 2 * n) ==> 2 * n <= place[k]
                    < 2 * n + record.len() && all[k] == (DriftView {
                    kind: DriftKind::Unexpected,
                    field: record[place[k] - 2 * n].0,
                })
            &&& forall|i: int|
                #![trigger contract[i]]
                0 <= i < n ==> (place.contains(2 * i) <==> if exists|j: int|
                    0 <= j < record.len() && (#[trigger] record[j]).0 == contract[i].name {
                    contract[i].sensitive
                } else {
                    contract[i].required
                })
            &&& forall|i: int|
                #![trigger contract[i]]
                0 <= i < n ==> (place.contains(2 * i + 1) <==> record_drifts(
                    record,
                    seq![contract[i]],
                ).contains(DriftView { kind: DriftKind::TypeMismatch, field: contract[i].name }))
        }),
{
    let keys = keys_of(record);
    let n = contract.len() as int;
    let first = contract_places(record, contract);
    let rest = key_places(keys, contract);
    let later = rest.map_values(|j: int| 2 * n + j);
    let place = first + later;
    let all = record_drifts(record, contract);
    contract_places_ascend(record, contract);
    key_places_ascend(keys, contract);
    assert forall|k: int| 0 <= k < place.len() implies ({
        let p = #[trigger] place[k];
        &&& k < first.len() ==> p == first[k] && all[k] == contract_drifts(record, contract)[k]
        &&& k >= first.len() ==> p == 2 * n + rest[k - first.len()] && all[k]
            == unexpected_drifts(keys, contract)[k - first.len()]
    }) by {}
    assert forall|k: int, l: int| 0 <= k < l < place.len() implies #[trigger] place[k]
        < #[trigger] place[l] by {
        if l < first.len() {
            assert(first[k] < first[l]);
        } else if k < first.len() {
            assert(first[k] < 2 * n);
            assert(rest[l - first.len()] >= 0);
        } else {
            assert(rest[k - first.len()] < rest[l - first.len()]);
        }
    }
    assert forall|k: int| 0 <= k < place.len() && !(0 <= #[trigger] place[k] < 2 * n) implies 2 * n
        <= place[k] < 2 * n + record.len() && all[k] == (DriftView {
        kind: DriftKind::Unexpected,
        field: record[place[k] - 2 * n].0,
    }) by {
        if k < first.len() {
            assert(0 <= first[k] < 2 * n);
        } else {
            assert(0 <= rest[k - first.len()] < keys.len());
        }
    }
    assert forall|k: int| 0 <= k < place.len() && 0 <= #[trigger] place[k] < 2 * n implies all[k].field
        == contract[place[k] / 2].name && all[k].kind != DriftKind::Unexpected && (place[k] % 2 == 1
        <==> all[k].kind == DriftKind::TypeMismatch) by {
        if k >= first.len() {
            assert(0 <= rest[k - first.len()]);
        }
    }
    assert forall|i: int| #![trigger contract[i]] 0 <= i < n implies (place.contains(2 * i)
        <==> if exists|j: int|
        0 <= j < record.len() && (#[trigger] record[j]).0 == contract[i].name {
        contract[i].sensitive
    } else {
        contract[i].required
    }) && (place.contains(2 * i + 1) <==> record_drifts(record, seq![contract[i]]).contains(
        DriftView { kind: DriftKind::TypeMismatch, field: contract[i].name },
    )) by {
        let c = contract[i];
        let d = DriftView { kind: DriftKind::TypeMismatch, field: c.name };
        field_has_its_places(record, contract, i);
        in_either(first, later, 2 * i);
        in_either(first, later, 2 * i + 1);
        assert forall|k: int| 0 <= k < later.len() implies #[trigger] later[k] >= 2 * n by {
            assert(0 <= rest[k]);
        }
        value_among_entries(record, c.name);
        let here = field_places(record, c, i);
        assert(here.contains(2 * i) <==> (if lookup(record, c.name) is Some {
            c.sensitive
        } else {
            c.required
        })) by {
            if here.len() > 0 {
                assert(here[0] == 2 * i || here[0] == 2 * i + 1);
            }
        }
        let mismatch = lookup(record, c.name) is Some && c.ftype is Some && !has_type(
            lowercase(c.ftype->0),
            lookup(record, c.name)->0,
        );
        assert(here.contains(2 * i + 1) <==> mismatch) by {
            if mismatch {
                assert(here.last() == 2 * i + 1);
                assert(here[here.len() - 1] == 2 * i + 1);
            }
        }
        drifts_are_exact(record, seq![c], d);
        assert(seq![c][0] == c);
        assert(is_mistyped(record, seq![c], c.name) <==> mismatch);
    }
    place
}

// ---- stripping ----

/// A record keeps its entries but those of the names, in order: `at` are the
/// positions of what is kept. It changes exactly where an entry has one of the
/// names.
pub proof fn strip_keeps_the_other_entries(record: Entries, names: Set<Seq<char>>) -> (at: Seq<int>)
    ensures
        stripped(record, names) == at.map_values(|i: int| record[i]),
        forall|k: int|
            0 <= k < at.len() ==> 0 <= #[trigger] at[k] < record.len() && !names.contains(
                record[at[k]].0,
            ),
        forall|k: int, l: int| 0 <= k < l < at.len() ==> #[trigger] at[k] < #[trigger] at[l],
        forall|i: int|
            0 <= i < record.len() && !names.contains((#[trigger] record[i]).0) ==> at.contains(i),
        holds_any(record, names) <==> exists|i: int|
            0 <= i < record.len() && names.contains((#[trigger] record[i]).0),
    decreases record.len(),
{
    reveal(Seq::filter);
    if holds_any(record, names) {
        let k = choose|k: Seq<char>| names.contains(k) && #[trigger] has_key(record, k);
        let i = choose|i: int| key_at(record, k, i);
        assert(names.contains(record[i].0));
    }
    if exists|i: int| 0 <= i < record.len() && names.contains((#[trigger] record[i]).0) {
        let i = choose|i: int| 0 <= i < record.len() && names.contains((#[trigger] record[i]).0);
        assert(key_at(record, record[i].0, i));
        assert(has_key(record, record[i].0));
    }
    if record.len() == 0 {
        let at = Seq::<int>::empty();
        assert(stripped(record, names) =~= at.map_values(|i: int| record[i]));
        at
    } else {
        let head = record.drop_last();
        let n = record.len() - 1;
        let before = strip_keeps_the_other_entries(head, names);
        let at = if names.contains(record[n].0) {
            before
        } else {
            before.push(n)
        };
        assert forall|i: int| 0 <= i < head.len() implies head[i] == record[i] by {}
        assert(stripped(record, names) =~= at.map_values(|i: int| record[i]));
        assert forall|i: int| 0 <= i < record.len() && !names.contains(
            (#[trigger] record[i]).0,
        ) implies at.contains(i) by {
            if i < n {
                assert(head[i] == record[i]);
                let k = choose|k: int| 0 <= k < before.len() && before[k] == i;
                assert(at[k] == i);
            } else {
                assert(at[before.len() as int] == n);
            }
        }
        at
    }
}

// ---- contract blocks ----

/// The block of a description is its part from `from` to before `to`: it begins
/// with the first `[` after the first marker, which stands at `p`, and ends with
/// the last `]`.
pub proof fn block_is_found(
    description: Seq<char>,
    marker: Seq<char>,
    p: int,
    from: int,
    to: int,
)
    requires
        0 <= p && p + marker.len() <= from < to <= description.len(),
        description.subrange(p, p + marker.len()) == marker,
        forall|q: int|
            0 <= q < p && q + marker.len() <= description.len() ==> #[trigger] description.subrange(
                q,
                q + marker.len(),
            ) != marker,
        description[from] == '[',
        forall|i: int| p + marker.len() <= i < from ==> #[trigger] description[i] != '[',
        description[to - 1] == ']',
        forall|i: int| to <= i < description.len() ==> #[trigger] description[i] != ']',
    ensures
        block_of(description, marker) == Some(description.subrange(from, to)),
{
    assert(matches_at(description, marker, p));
    assert(occurs(description, marker));
    assert forall|q: int| 0 <= q < p implies !matches_at(description, marker, q) by {
        if q + marker.len() <= description.len() {
            assert(description.subrange(q, q + marker.len()) != marker);
        }
    }
    let found = first_match(description, marker)->0;
    assert(matches_at(description, marker, found) && forall|j: int|
        0 <= j < found ==> !matches_at(description, marker, j));
    assert(found == p);
    let at = p + marker.len();
    let tail = description.skip(at);
    tail.index_of_first_ensures('[');
    tail.index_of_last_ensures(']');
    assert(tail[from - at] == '[');
    assert(tail[to - 1 - at] == ']');
    let start = tail.index_of_first('[')->0;
    let end = tail.index_of_last(']')->0;
    assert(start == from - at) by {
        if start < from - at {
            assert(description[start + at] != '[');
        }
    }
    assert(end == to - 1 - at) by {
        if end > to - 1 - at {
            assert(description[end + at] != ']');
        }
    }
    assert(tail.subrange(start, end + 1) =~= description.subrange(from, to));
}

/// A description has a block only where a marker is followed by a `[` and, at or
/// after the first one, by a `]`.
pub proof fn block_needs_marker_and_brackets(description: Seq<char>, marker: Seq<char>)
    requires
        block_of(description, marker) is Some,
    ensures
        exists|p: int|
            #![trigger description.skip(p + marker.len())]
            0 <= p && p + marker.len() <= description.len() && description.subrange(
                p,
                p + marker.len(),
            ) == marker && ({
                let tail = description.skip(p + marker.len());
                tail.contains('[') && tail.contains(']')
            }),
{
    let some = choose|i: int| matches_at(description, marker, i);
    first_match_exists(description, marker, some);
    let p = first_match(description, marker)->0;
    let tail = description.skip(p + marker.len());
    assert(tail.contains('[') && tail.contains(']')) by {
        tail.index_of_first_ensures('[');
        tail.index_of_last_ensures(']');
    }
    assert(description.subrange(p, p + marker.len()) == marker);
}

/// Where a needle stands at all there is a first place.
proof fn first_match_exists(hay: Seq<char>, needle: Seq<char>, i: int)
    requires
        matches_at(hay, needle, i),
    ensures
        matches_at(hay, needle, first_match(hay, needle)->0),
        first_match(hay, needle) is Some,
    decreases i,
{
    if exists|j: int| 0 <= j < i && matches_at(hay, needle, j) {
        let j = choose|j: int| 0 <= j < i && matches_at(hay, needle, j);
        first_match_exists(hay, needle, j);
    } else {
        assert(occurs(hay, needle));
        assert(matches_at(hay, needle, i) && forall|j: int|
            0 <= j < i ==> !matches_at(hay, needle, j));
    }
}

} // verus!
