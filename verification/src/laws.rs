//! What holds of the guard as a whole.

use crate::cdgc::ContractView;
use crate::conformance::{
    action_for, calls_for, calls_for_removal, calls_for_report, contract_drifts, decision_of,
    field_drifts, governed, has_type, holds_any, log_lines, record_drifts, removed_fields,
    token_of, tokens_of, unexpected_drifts, Action, Actions, DecisionView, DriftKind, DriftView,
    FieldView,
};
use crate::envelope::{
    data_of, document_of, embedded, first_document, first_embedding, first_text_item, framed,
    is_envelope, line_document, located, mirrored, written, Place,
};
use crate::guard::{
    annotation, guarded, rejection, repaired, status_of, violation, violation_message,
    RPC_CONTRACT_VIOLATION,
};
use crate::json::{
    ascending, empty_object, entries_well_formed, has_key, json_of_text, json_text, key_at,
    keys_of, list_member, lookup, member, number_from, put, put_law, put_same, stripped,
    stripped_law, stripped_nothing, text_or_null, well_formed, with_member, Entries, JsonView,
};
use crate::records::{
    all_drifts, at_path, objects_of, records_at, records_in, replaced_at, step_into, steps_of,
    strip_at, strip_node, strip_object,
};
use crate::request::CtxView;
use crate::text::{
    ascii_only, index_value, joined, lower_ascii, lowercase, matches_at, occurs, pieces,
    pieces_join_back, trimmed, trimmed_start,
};
use vstd::prelude::*;

verus! {

// ---- drifts mean what they say ----

/// A required field of the contract is absent from the record.
pub open spec fn is_missing(record: Entries, contract: Seq<FieldView>, f: Seq<char>) -> bool {
    exists|i: int|
        0 <= i < contract.len() && (#[trigger] contract[i]).name == f && contract[i].required
            && lookup(record, f) is None
}

/// A sensitive field of the contract is present in the record.
pub open spec fn is_leak(record: Entries, contract: Seq<FieldView>, f: Seq<char>) -> bool {
    exists|i: int|
        0 <= i < contract.len() && (#[trigger] contract[i]).name == f && contract[i].sensitive
            && lookup(record, f) is Some
}

/// A field of the record has another type than the contract declares.
pub open spec fn is_mistyped(record: Entries, contract: Seq<FieldView>, f: Seq<char>) -> bool {
    exists|i: int|
        0 <= i < contract.len() && (#[trigger] contract[i]).name == f && (contract[i].ftype matches Some(
            t,
        ) && lookup(record, f) matches Some(v) && !has_type(lowercase(t), v))
}

/// A field of the record is not in the contract.
pub open spec fn is_unexpected(record: Entries, contract: Seq<FieldView>, f: Seq<char>) -> bool {
    has_key(record, f) && !governed(contract, f)
}

/// The record diverges from the contract in the way that the drift says.
pub open spec fn drifted(record: Entries, contract: Seq<FieldView>, d: DriftView) -> bool {
    match d.kind {
        DriftKind::MissingRequired => is_missing(record, contract, d.field),
        DriftKind::Sensitive => is_leak(record, contract, d.field),
        DriftKind::TypeMismatch => is_mistyped(record, contract, d.field),
        DriftKind::Unexpected => is_unexpected(record, contract, d.field),
    }
}

/// The drift is one at this field of the contract.
pub open spec fn drifted_at(record: Entries, c: FieldView, d: DriftView) -> bool {
    c.name == d.field && match d.kind {
        DriftKind::MissingRequired => c.required && lookup(record, c.name) is None,
        DriftKind::Sensitive => c.sensitive && lookup(record, c.name) is Some,
        DriftKind::TypeMismatch => c.ftype matches Some(t) && lookup(record, c.name) matches Some(
            v,
        ) && !has_type(lowercase(t), v),
        DriftKind::Unexpected => false,
    }
}

/// The drifts at one field.
proof fn field_drifts_exact(record: Entries, c: FieldView, d: DriftView)
    ensures
        field_drifts(record, c).contains(d) <==> drifted_at(record, c, d),
{
    let all = field_drifts(record, c);
    if drifted_at(record, c, d) {
        assert(d == DriftView { kind: d.kind, field: c.name });
        if d.kind == DriftKind::TypeMismatch {
            assert(all.last() == d);
        } else {
            assert(all[0] == d);
        }
    }
}

/// The drifts at the fields of the contract.
proof fn contract_drifts_exact(record: Entries, contract: Seq<FieldView>, d: DriftView)
    ensures
        contract_drifts(record, contract).contains(d) <==> exists|i: int|
            0 <= i < contract.len() && drifted_at(record, #[trigger] contract[i], d),
    decreases contract.len(),
{
    if contract.len() > 0 {
        let head = contract.drop_last();
        let a = contract_drifts(record, head);
        let b = field_drifts(record, contract.last());
        contract_drifts_exact(record, head, d);
        field_drifts_exact(record, contract.last(), d);
        in_either(a, b, d);
        if exists|i: int| 0 <= i < head.len() && drifted_at(record, #[trigger] head[i], d) {
            let i = choose|i: int| 0 <= i < head.len() && drifted_at(record, #[trigger] head[i], d);
            assert(contract[i] == head[i]);
        }
        if exists|i: int|
            0 <= i < contract.len() && drifted_at(record, #[trigger] contract[i], d) {
            let i = choose|i: int|
                0 <= i < contract.len() && drifted_at(record, #[trigger] contract[i], d);
            if i < head.len() {
                assert(head[i] == contract[i]);
            }
        }
        assert(contract[contract.len() - 1] == contract.last());
    }
}

/// What stands in two lists together stands in one of them.
pub proof fn in_either<T>(a: Seq<T>, b: Seq<T>, d: T)
    ensures
        (a + b).contains(d) <==> a.contains(d) || b.contains(d),
{
    let both = a + b;
    if a.contains(d) {
        let i = choose|i: int| 0 <= i < a.len() && a[i] == d;
        assert(both[i] == d);
    }
    if b.contains(d) {
        let i = choose|i: int| 0 <= i < b.len() && b[i] == d;
        assert(both[a.len() + i] == d);
    }
    if both.contains(d) {
        let i = choose|i: int| 0 <= i < both.len() && both[i] == d;
        if i < a.len() {
            assert(a[i] == d);
        } else {
            assert(b[i - a.len()] == d);
        }
    }
}

/// The drifts of ungoverned keys.
proof fn unexpected_drifts_exact(keys: Seq<Seq<char>>, contract: Seq<FieldView>, d: DriftView)
    ensures
        unexpected_drifts(keys, contract).contains(d) <==> d.kind == DriftKind::Unexpected
            && keys.contains(d.field) && !governed(contract, d.field),
    decreases keys.len(),
{
    if keys.len() > 0 {
        let head = keys.drop_last();
        let done = unexpected_drifts(head, contract);
        let last = DriftView { kind: DriftKind::Unexpected, field: keys.last() };
        unexpected_drifts_exact(head, contract, d);
        assert(keys =~= head.push(keys.last()));
        in_either(head, seq![keys.last()], d.field);
        assert(head + seq![keys.last()] =~= keys);
        assert(seq![keys.last()].contains(d.field) <==> d.field == keys.last()) by {
            assert(seq![keys.last()][0] == keys.last());
        }
        if !governed(contract, keys.last()) {
            in_either(done, seq![last], d);
            assert(done + seq![last] =~= done.push(last));
            assert(seq![last].contains(d) <==> d == last) by {
                assert(seq![last][0] == last);
            }
        }
    }
}

/// A drift is found exactly where the record diverges from the contract in the
/// way that the drift says. So a required field that is present is no missing
/// field, even where it is a leak.
pub proof fn drifts_are_exact(record: Entries, contract: Seq<FieldView>, d: DriftView)
    ensures
        record_drifts(record, contract).contains(d) <==> drifted(record, contract, d),
{
    let keys = keys_of(record);
    contract_drifts_exact(record, contract, d);
    unexpected_drifts_exact(keys, contract, d);
    in_either(contract_drifts(record, contract), unexpected_drifts(keys, contract), d);
    assert(keys.contains(d.field) <==> has_key(record, d.field)) by {
        if keys.contains(d.field) {
            let i = choose|i: int| 0 <= i < keys.len() && keys[i] == d.field;
            assert(key_at(record, d.field, i));
        }
        if has_key(record, d.field) {
            let i = choose|i: int| key_at(record, d.field, i);
            assert(keys[i] == d.field);
        }
    }
    if exists|i: int| 0 <= i < contract.len() && drifted_at(record, #[trigger] contract[i], d) {
        let i = choose|i: int|
            0 <= i < contract.len() && drifted_at(record, #[trigger] contract[i], d);
        assert(contract[i].name == d.field);
        assert(drifted(record, contract, d));
    }
    if drifted(record, contract, d) && d.kind != DriftKind::Unexpected {
        let i = match d.kind {
            DriftKind::MissingRequired => choose|i: int|
                0 <= i < contract.len() && (#[trigger] contract[i]).name == d.field
                    && contract[i].required && lookup(record, d.field) is None,
            DriftKind::Sensitive => choose|i: int|
                0 <= i < contract.len() && (#[trigger] contract[i]).name == d.field
                    && contract[i].sensitive && lookup(record, d.field) is Some,
            _ => choose|i: int|
                0 <= i < contract.len() && (#[trigger] contract[i]).name == d.field && (
                contract[i].ftype matches Some(t) && lookup(record, d.field) matches Some(v)
                    && !has_type(lowercase(t), v)),
        };
        assert(drifted_at(record, contract[i], d));
    }
}

/// A type's name is read in any letter case: two names that differ only in the
/// case of ASCII letters declare the same type.
pub proof fn type_names_in_any_case(t: Seq<char>, u: Seq<char>, v: JsonView)
    requires
        ascii_only(t),
        ascii_only(u),
        t.len() == u.len(),
        forall|i: int| 0 <= i < t.len() ==> lower_ascii(#[trigger] t[i]) == lower_ascii(u[i]),
    ensures
        has_type(lowercase(t), v) == has_type(lowercase(u), v),
{
    assert(lowercase(t) =~= lowercase(u));
}

/// The record has every required field, no sensitive field, only fields of the
/// declared types, and no field that is not in the contract.
pub open spec fn conforms(record: Entries, contract: Seq<FieldView>) -> bool {
    &&& forall|i: int|
        0 <= i < contract.len() ==> {
            let c = #[trigger] contract[i];
            match lookup(record, c.name) {
                None => !c.required,
                Some(v) => !c.sensitive && (c.ftype matches Some(t) ==> has_type(lowercase(t), v)),
            }
        }
    &&& forall|k: Seq<char>| #[trigger] has_key(record, k) ==> governed(contract, k)
}

/// A record has no drift exactly when it conforms.
pub proof fn clean_means_conforming(record: Entries, contract: Seq<FieldView>)
    ensures
        record_drifts(record, contract).len() == 0 <==> conforms(record, contract),
{
    let all = record_drifts(record, contract);
    if all.len() == 0 {
        assert forall|i: int| 0 <= i < contract.len() implies {
            let c = #[trigger] contract[i];
            match lookup(record, c.name) {
                None => !c.required,
                Some(v) => !c.sensitive && (c.ftype matches Some(t) ==> has_type(lowercase(t), v)),
            }
        } by {
            let f = contract[i].name;
            drifts_are_exact(
                record,
                contract,
                DriftView { kind: DriftKind::MissingRequired, field: f },
            );
            drifts_are_exact(record, contract, DriftView { kind: DriftKind::Sensitive, field: f });
            drifts_are_exact(
                record,
                contract,
                DriftView { kind: DriftKind::TypeMismatch, field: f },
            );
        }
        assert forall|k: Seq<char>| #[trigger] has_key(record, k) implies governed(contract, k) by {
            drifts_are_exact(record, contract, DriftView { kind: DriftKind::Unexpected, field: k });
        }
    } else {
        let d = all[0];
        drifts_are_exact(record, contract, d);
        assert(all.contains(d));
        assert(drifted(record, contract, d));
        assert(!conforms(record, contract)) by {
            if conforms(record, contract) {
                if d.kind == DriftKind::Unexpected {
                    assert(has_key(record, d.field));
                } else {
                    contract_drifts_exact(record, contract, d);
                    unexpected_drifts_exact(keys_of(record), contract, d);
                    in_either(
                        contract_drifts(record, contract),
                        unexpected_drifts(keys_of(record), contract),
                        d,
                    );
                    let i = choose|i: int|
                        0 <= i < contract.len() && drifted_at(record, #[trigger] contract[i], d);
                    assert(drifted_at(record, contract[i], d));
                }
            }
        }
    }
}

// ---- decisions ----

/// The drift's action is not off.
pub open spec fn is_on(d: DriftView, a: Actions) -> bool {
    action_for(a, d.kind) != Action::Off
}

/// A drift whose action is off decides nothing: without such drifts the
/// decision is the same.
pub proof fn off_decides_nothing(drifts: Seq<DriftView>, a: Actions)
    ensures
        decision_of(drifts.filter(|d: DriftView| is_on(d, a)), a) == decision_of(drifts, a),
{
    let on = |d: DriftView| is_on(d, a);
    let kept = drifts.filter(on);
    off_lists_nothing(drifts, a);
    kept_drifts(drifts, a);
    assert(calls_for(kept, a, Action::Reject) == calls_for(drifts, a, Action::Reject)) by {
        if calls_for(drifts, a, Action::Reject) {
            let i = choose|i: int|
                0 <= i < drifts.len() && action_for(a, (#[trigger] drifts[i]).kind)
                    == Action::Reject;
            assert(kept.contains(drifts[i]));
            let j = choose|j: int| 0 <= j < kept.len() && kept[j] == drifts[i];
            assert(action_for(a, kept[j].kind) == Action::Reject);
        }
        if calls_for(kept, a, Action::Reject) {
            let j = choose|j: int|
                0 <= j < kept.len() && action_for(a, (#[trigger] kept[j]).kind) == Action::Reject;
            assert(drifts.contains(kept[j]));
            let i = choose|i: int| 0 <= i < drifts.len() && drifts[i] == kept[j];
            assert(action_for(a, drifts[i].kind) == Action::Reject);
        }
    }
    assert(removed_fields(kept, a) =~= removed_fields(drifts, a)) by {
        assert forall|f: Seq<char>| removed_fields(drifts, a).contains(f) implies removed_fields(
            kept,
            a,
        ).contains(f) by {
            let i = choose|i: int|
                0 <= i < drifts.len() && (#[trigger] drifts[i]).field == f && calls_for_removal(
                    drifts[i],
                    a,
                );
            assert(kept.contains(drifts[i]));
            let j = choose|j: int| 0 <= j < kept.len() && kept[j] == drifts[i];
            assert(kept[j].field == f);
        }
        assert forall|f: Seq<char>| removed_fields(kept, a).contains(f) implies removed_fields(
            drifts,
            a,
        ).contains(f) by {
            let j = choose|j: int|
                0 <= j < kept.len() && (#[trigger] kept[j]).field == f && calls_for_removal(
                    kept[j],
                    a,
                );
            assert(drifts.contains(kept[j]));
            let i = choose|i: int| 0 <= i < drifts.len() && drifts[i] == kept[j];
            assert(drifts[i].field == f);
        }
    }
    assert(decision_of(kept, a).inform == decision_of(drifts, a).inform) by {
        if decision_of(drifts, a).inform {
            let i = choose|i: int|
                0 <= i < drifts.len() && calls_for_report(#[trigger] drifts[i], a);
            assert(kept.contains(drifts[i]));
            let j = choose|j: int| 0 <= j < kept.len() && kept[j] == drifts[i];
            assert(calls_for_report(kept[j], a));
        }
        if decision_of(kept, a).inform {
            let j = choose|j: int| 0 <= j < kept.len() && calls_for_report(#[trigger] kept[j], a);
            assert(drifts.contains(kept[j]));
            let i = choose|i: int| 0 <= i < drifts.len() && drifts[i] == kept[j];
            assert(calls_for_report(drifts[i], a));
        }
    }
}

/// The drifts that are not off: those, and no others.
proof fn kept_drifts(drifts: Seq<DriftView>, a: Actions)
    ensures
        forall|d: DriftView|
            drifts.filter(|d: DriftView| is_on(d, a)).contains(d) <==> drifts.contains(d) && is_on(
                d,
                a,
            ),
    decreases drifts.len(),
{
    reveal(Seq::filter);
    let on = |d: DriftView| is_on(d, a);
    if drifts.len() > 0 {
        let head = drifts.drop_last();
        kept_drifts(head, a);
        assert(drifts =~= head + seq![drifts.last()]);
        assert forall|d: DriftView| drifts.filter(on).contains(d) <==> drifts.contains(d) && is_on(
            d,
            a,
        ) by {
            in_either(head, seq![drifts.last()], d);
            in_either(head.filter(on), seq![drifts.last()], d);
            assert(seq![drifts.last()].contains(d) <==> d == drifts.last()) by {
                assert(seq![drifts.last()][0] == drifts.last());
            }
            assert(head.filter(on).push(drifts.last()) =~= head.filter(on) + seq![drifts.last()]);
        }
    }
}

/// A drift that is off stands neither in the summary nor in the log.
proof fn off_lists_nothing(drifts: Seq<DriftView>, a: Actions)
    ensures
        tokens_of(drifts.filter(|d: DriftView| is_on(d, a)), a) == tokens_of(drifts, a),
        log_lines(drifts.filter(|d: DriftView| is_on(d, a)), a) == log_lines(drifts, a),
    decreases drifts.len(),
{
    reveal(Seq::filter);
    let on = |d: DriftView| is_on(d, a);
    if drifts.len() > 0 {
        let head = drifts.drop_last();
        off_lists_nothing(head, a);
        if on(drifts.last()) {
            let kept = head.filter(on).push(drifts.last());
            assert(drifts.filter(on) == kept);
            assert(kept.drop_last() =~= head.filter(on));
        }
    }
}

/// The summary has a token for every drift that is not off and no other token,
/// and none stands twice.
pub proof fn summary_is_exact(drifts: Seq<DriftView>, a: Actions)
    ensures
        forall|t: Seq<char>|
            #[trigger] tokens_of(drifts, a).contains(t) <==> exists|i: int|
                0 <= i < drifts.len() && is_on(#[trigger] drifts[i], a) && token_of(drifts[i]) == t,
        tokens_of(drifts, a).no_duplicates(),
    decreases drifts.len(),
{
    if drifts.len() > 0 {
        let head = drifts.drop_last();
        let last = drifts.last();
        let done = tokens_of(head, a);
        let all = tokens_of(drifts, a);
        summary_is_exact(head, a);
        assert forall|t: Seq<char>| #[trigger] all.contains(t) <==> exists|i: int|
            0 <= i < drifts.len() && is_on(#[trigger] drifts[i], a) && token_of(drifts[i]) == t by {
            in_either(done, seq![token_of(last)], t);
            assert(done.push(token_of(last)) =~= done + seq![token_of(last)]);
            assert(seq![token_of(last)].contains(t) <==> t == token_of(last)) by {
                assert(seq![token_of(last)][0] == token_of(last));
            }
            if exists|i: int|
                0 <= i < head.len() && is_on(#[trigger] head[i], a) && token_of(head[i]) == t {
                let i = choose|i: int|
                    0 <= i < head.len() && is_on(#[trigger] head[i], a) && token_of(head[i]) == t;
                assert(drifts[i] == head[i]);
            }
            if exists|i: int|
                0 <= i < drifts.len() && is_on(#[trigger] drifts[i], a) && token_of(drifts[i])
                    == t {
                let i = choose|i: int|
                    0 <= i < drifts.len() && is_on(#[trigger] drifts[i], a) && token_of(drifts[i])
                        == t;
                if i < head.len() {
                    assert(head[i] == drifts[i]);
                    assert(done.contains(t));
                }
            }
            assert(drifts[drifts.len() - 1] == last);
        }
    }
}

/// Every part of a joined text stands in it.
proof fn joined_holds_parts(parts: Seq<Seq<char>>, sep: char, i: int)
    requires
        0 <= i < parts.len(),
    ensures
        occurs(joined(parts, sep), parts[i]),
    decreases parts.len(),
{
    let all = joined(parts, sep);
    if parts.len() == 1 {
        assert(all.subrange(0, all.len() as int) =~= parts[0]);
        assert(matches_at(all, parts[i], 0));
    } else {
        let head = joined(parts.drop_last(), sep);
        if i == parts.len() - 1 {
            let at = head.len() + 1int;
            assert(all.subrange(at, at + parts[i].len()) =~= parts[i]);
            assert(matches_at(all, parts[i], at));
        } else {
            joined_holds_parts(parts.drop_last(), sep, i);
            let at = choose|at: int| matches_at(head, parts[i], at);
            assert(all.subrange(at, at + parts[i].len()) =~= head.subrange(
                at,
                at + parts[i].len(),
            ));
            assert(matches_at(all, parts[i], at));
        }
    }
}

/// The summary lists every drift that is not off, whatever the decision.
pub proof fn summary_lists_every_drift(drifts: Seq<DriftView>, a: Actions, i: int)
    requires
        0 <= i < drifts.len(),
        is_on(drifts[i], a),
    ensures
        occurs(decision_of(drifts, a).summary, token_of(drifts[i])),
{
    summary_is_exact(drifts, a);
    let tokens = tokens_of(drifts, a);
    assert(tokens.contains(token_of(drifts[i])));
    let k = choose|k: int| 0 <= k < tokens.len() && tokens[k] == token_of(drifts[i]);
    joined_holds_parts(tokens, ',', k);
}

/// Without drifts nothing is done and nothing is reported.
pub proof fn no_drift_no_action(a: Actions)
    ensures
        ({
            let d = decision_of(seq![], a);
            &&& !d.reject
            &&& d.strip == Set::<Seq<char>>::empty()
            &&& !d.inform
            &&& d.summary == Seq::<char>::empty()
            &&& d.logged == Seq::<Seq<char>>::empty()
        }),
{
    assert(removed_fields(seq![], a) =~= Set::<Seq<char>>::empty());
}

/// The reported outcome: `repaired` exactly where fields are stripped, `ok`
/// exactly where every drift is off, and `drift` in every other case, so wherever
/// a drift is to be reported and nothing is stripped.
pub proof fn ok_means_clean(drifts: Seq<DriftView>, a: Actions)
    ensures
        ({
            let d = decision_of(drifts, a);
            &&& status_of(d) == "repaired"@ <==> d.strip != Set::<Seq<char>>::empty()
            &&& status_of(d) == "ok"@ <==> forall|i: int|
                0 <= i < drifts.len() ==> !is_on(#[trigger] drifts[i], a)
            &&& d.inform && d.strip == Set::<Seq<char>>::empty() ==> status_of(d) == "drift"@
        }),
{
    reveal_strlit("repaired");
    reveal_strlit("drift");
    reveal_strlit("ok");
    assert("repaired"@.len() == 8 && "drift"@.len() == 5 && "ok"@.len() == 2);
    let d = decision_of(drifts, a);
    let tokens = tokens_of(drifts, a);
    if exists|i: int| 0 <= i < drifts.len() && is_on(#[trigger] drifts[i], a) {
        let i = choose|i: int| 0 <= i < drifts.len() && is_on(#[trigger] drifts[i], a);
        summary_lists_every_drift(drifts, a, i);
        let at = choose|at: int| matches_at(d.summary, token_of(drifts[i]), at);
        assert(token_of(drifts[i]).len() > 0);
        assert(d.summary.len() > 0);
    } else {
        summary_is_exact(drifts, a);
        if tokens.len() > 0 {
            assert(tokens.contains(tokens[0]));
        }
        assert(d.summary.len() == 0);
        assert(d.strip =~= Set::<Seq<char>>::empty()) by {
            assert forall|f: Seq<char>| !(#[trigger] d.strip.contains(f)) by {
                if d.strip.contains(f) {
                    let i = choose|i: int|
                        0 <= i < drifts.len() && (#[trigger] drifts[i]).field == f
                            && calls_for_removal(drifts[i], a);
                    assert(is_on(drifts[i], a));
                }
            }
        }
    }
    if d.inform {
        let i = choose|i: int| 0 <= i < drifts.len() && calls_for_report(#[trigger] drifts[i], a);
        assert(is_on(drifts[i], a));
    }
    assert(status_of(d) == "repaired"@ <==> d.strip != Set::<Seq<char>>::empty());
    assert(status_of(d) == "ok"@ <==> d.strip == Set::<Seq<char>>::empty() && d.summary.len() == 0);
}

// ---- paths ----

/// What is written at the end of a path is found there, provided that the path
/// leads somewhere; and a path that leads nowhere leaves the document as it was.
pub proof fn write_is_found_again(j: JsonView, steps: Seq<Seq<char>>, w: JsonView)
    requires
        well_formed(j),
    ensures
        at_path(j, steps) is Some ==> at_path(replaced_at(j, steps, w), steps) == Some(w),
        at_path(j, steps) is None ==> replaced_at(j, steps, w) == j,
    decreases steps.len(),
{
    if steps.len() > 0 {
        match step_into(j, steps[0]) {
            Some(child) => {
                let rest = steps.drop_first();
                let changed = replaced_at(child, rest, w);
                let after = replaced_at(j, steps, w);
                step_well_formed(j, steps[0]);
                write_is_found_again(child, rest, w);
                match j {
                    JsonView::Object(e) => {
                        put_law(e, steps[0], changed);
                        let i = choose|i: int| key_at(e, steps[0], i);
                        put_same(e, steps[0], i);
                    },
                    JsonView::List(items) => {
                        let i = index_value(steps[0])->0 as int;
                        assert(items.update(i, items[i]) =~= items);
                    },
                    _ => {},
                }
                assert(step_into(after, steps[0]) == Some(changed));
            },
            None => {},
        }
    }
}

/// A step into a well-formed document leads to a well-formed one.
proof fn step_well_formed(j: JsonView, step: Seq<char>)
    requires
        well_formed(j),
    ensures
        step_into(j, step) matches Some(child) ==> well_formed(child),
{
    match j {
        JsonView::Object(e) => {
            entries_well_formed(e, step, JsonView::Null, Set::empty());
        },
        _ => {},
    }
}

/// Two steps lead to different places of a document: by their keys in an object,
/// by their indices in a list.
pub open spec fn apart(j: JsonView, p: Seq<char>, q: Seq<char>) -> bool {
    match j {
        JsonView::Object(_) => p != q,
        JsonView::List(_) => index_value(p) is None || index_value(p) != index_value(q),
        _ => true,
    }
}

/// The path `other` leaves the path `steps` at some place of the document, or
/// lies beyond where `steps` leads nowhere.
pub open spec fn off_path(j: JsonView, steps: Seq<Seq<char>>, other: Seq<Seq<char>>) -> bool
    decreases steps.len(),
{
    if steps.len() == 0 || other.len() == 0 {
        false
    } else if apart(j, steps[0], other[0]) {
        true
    } else {
        match step_into(j, steps[0]) {
            Some(child) => off_path(child, steps.drop_first(), other.drop_first()),
            None => true,
        }
    }
}

/// Writing at the end of a path leaves every part of the document that lies off
/// the path as it was.
pub proof fn write_leaves_the_rest(
    j: JsonView,
    steps: Seq<Seq<char>>,
    other: Seq<Seq<char>>,
    w: JsonView,
)
    requires
        well_formed(j),
        off_path(j, steps, other),
    ensures
        at_path(replaced_at(j, steps, w), other) == at_path(j, other),
    decreases steps.len(),
{
    let after = replaced_at(j, steps, w);
    match step_into(j, steps[0]) {
        Some(child) => {
            let changed = replaced_at(child, steps.drop_first(), w);
            step_well_formed(j, steps[0]);
            match j {
                JsonView::Object(e) => {
                    put_law(e, steps[0], changed);
                },
                _ => {},
            }
            if apart(j, steps[0], other[0]) {
                assert(step_into(after, other[0]) == step_into(j, other[0]));
            } else {
                write_leaves_the_rest(child, steps.drop_first(), other.drop_first(), w);
                assert(step_into(after, other[0]) == Some(changed));
                assert(step_into(j, other[0]) == Some(child));
            }
        },
        None => {},
    }
}

/// Writing a well-formed value keeps a document well-formed, and below the root
/// it keeps what kind of document the root is.
proof fn write_keeps_well_formed(j: JsonView, steps: Seq<Seq<char>>, w: JsonView)
    requires
        well_formed(j),
        well_formed(w),
    ensures
        well_formed(replaced_at(j, steps, w)),
        steps.len() > 0 ==> (j is Object <==> replaced_at(j, steps, w) is Object),
    decreases steps.len(),
{
    if steps.len() > 0 {
        match step_into(j, steps[0]) {
            Some(child) => {
                let changed = replaced_at(child, steps.drop_first(), w);
                step_well_formed(j, steps[0]);
                write_keeps_well_formed(child, steps.drop_first(), w);
                match j {
                    JsonView::Object(e) => {
                        entries_well_formed(e, steps[0], changed, Set::empty());
                    },
                    JsonView::List(items) => {
                        let k = index_value(steps[0])->0 as int;
                        let now = items.update(k, changed);
                        assert forall|i: int| 0 <= i < now.len() implies well_formed(
                            #[trigger] now[i],
                        ) by {
                            if i != k {
                                assert(well_formed(items[i]));
                            }
                        }
                    },
                    _ => {},
                }
            },
            None => {},
        }
    }
}

// ---- stripping ----

/// After stripping, the record holds none of the names, stripping again changes
/// nothing, and stripping changes the record exactly when it holds a name.
pub proof fn strip_is_final(record: Entries, names: Set<Seq<char>>)
    requires
        ascending(record),
    ensures
        !holds_any(stripped(record, names), names),
        stripped(stripped(record, names), names) == stripped(record, names),
        holds_any(record, names) <==> stripped(record, names) != record,
{
    let s = stripped(record, names);
    stripped_law(record, names);
    assert(!holds_any(s, names)) by {
        if holds_any(s, names) {
            let k = choose|k: Seq<char>| names.contains(k) && #[trigger] has_key(s, k);
            assert(has_key(s, k));
        }
    }
    assert forall|i: int| 0 <= i < s.len() implies !names.contains((#[trigger] s[i]).0) by {
        assert(key_at(s, s[i].0, i));
        assert(has_key(s, s[i].0));
    }
    stripped_nothing(s, names);
    if !holds_any(record, names) {
        assert forall|i: int| 0 <= i < record.len() implies !names.contains(
            (#[trigger] record[i]).0,
        ) by {
            assert(key_at(record, record[i].0, i));
            assert(has_key(record, record[i].0));
        }
        stripped_nothing(record, names);
    }
}

/// A record that was stripped for its drifts has no drift left of a kind whose
/// action is to strip, other than missing fields. `drifts` may hold the drifts
/// of other records too.
pub proof fn stripped_kinds_are_gone(
    record: Entries,
    contract: Seq<FieldView>,
    drifts: Seq<DriftView>,
    a: Actions,
    d: DriftView,
)
    requires
        ascending(record),
        forall|d: DriftView|
            record_drifts(record, contract).contains(d) ==> #[trigger] drifts.contains(d),
        calls_for_removal(d, a),
    ensures
        !record_drifts(stripped(record, removed_fields(drifts, a)), contract).contains(d),
{
    let names = removed_fields(drifts, a);
    let s = stripped(record, names);
    stripped_law(record, names);
    drifts_are_exact(s, contract, d);
    drifts_are_exact(record, contract, d);
    if drifted(s, contract, d) {
        assert(has_key(s, d.field)) by {
            if d.kind != DriftKind::Unexpected {
                assert(lookup(s, d.field) is Some);
            }
        }
        assert(!names.contains(d.field));
        assert(lookup(s, d.field) == lookup(record, d.field));
        assert(drifted(record, contract, d)) by {
            if d.kind == DriftKind::Unexpected {
                assert(has_key(record, d.field));
            }
        }
        assert(drifts.contains(d));
        let i = choose|i: int| 0 <= i < drifts.len() && drifts[i] == d;
        assert(drifts[i].field == d.field && calls_for_removal(drifts[i], a));
        assert(names.contains(d.field));
    }
}

// ---- payloads ----

/// The records that a list stands for are stripped one by one.
proof fn objects_stripped(items: Seq<JsonView>, names: Set<Seq<char>>)
    ensures
        objects_of(items.map_values(|item: JsonView| strip_object(item, names))) == objects_of(
            items,
        ).map_values(|e: Entries| stripped(e, names)),
    decreases items.len(),
{
    let f = |item: JsonView| strip_object(item, names);
    let g = |e: Entries| stripped(e, names);
    let changed = items.map_values(f);
    if items.len() > 0 {
        let head = items.drop_last();
        objects_stripped(head, names);
        assert(changed.drop_last() =~= head.map_values(f));
        assert(changed.last() == strip_object(items.last(), names));
        match items.last() {
            JsonView::Object(e) => {
                assert(objects_of(changed) =~= objects_of(items).map_values(g));
            },
            _ => {
                assert(objects_of(changed) =~= objects_of(items).map_values(g));
            },
        }
    } else {
        assert(objects_of(changed) =~= objects_of(items).map_values(g));
    }
}

/// Stripping removes the names from every record at the path, and removes
/// nothing else from a record.
pub proof fn strip_reaches_every_record(
    payload: JsonView,
    steps: Seq<Seq<char>>,
    names: Set<Seq<char>>,
)
    requires
        well_formed(payload),
    ensures
        records_in(at_path(strip_at(payload, steps, names), steps)) == records_in(
            at_path(payload, steps),
        ).map_values(|e: Entries| stripped(e, names)),
{
    let g = |e: Entries| stripped(e, names);
    strip_is_found_again(payload, steps, names);
    match at_path(payload, steps) {
        Some(JsonView::List(items)) => {
            objects_stripped(items, names);
        },
        node => {
            assert(records_in(at_path(strip_at(payload, steps, names), steps)) =~= records_in(
                node,
            ).map_values(g));
        },
    }
}

/// The node at the path of a stripped payload is the stripped node, and a path
/// that leads nowhere leaves the payload as it was.
pub proof fn strip_is_found_again(
    payload: JsonView,
    steps: Seq<Seq<char>>,
    names: Set<Seq<char>>,
)
    requires
        well_formed(payload),
    ensures
        at_path(payload, steps) matches Some(node) ==> at_path(
            strip_at(payload, steps, names),
            steps,
        ) == Some(strip_node(node, names)),
        at_path(payload, steps) is None ==> strip_at(payload, steps, names) == payload,
{
    match at_path(payload, steps) {
        Some(node) => {
            write_is_found_again(payload, steps, strip_node(node, names));
        },
        None => {},
    }
}

/// Stripping leaves every part of the payload that lies off the path as it was.
pub proof fn strip_leaves_the_rest(
    payload: JsonView,
    steps: Seq<Seq<char>>,
    other: Seq<Seq<char>>,
    names: Set<Seq<char>>,
)
    requires
        well_formed(payload),
        off_path(payload, steps, other),
    ensures
        at_path(strip_at(payload, steps, names), other) == at_path(payload, other),
{
    match at_path(payload, steps) {
        Some(node) => {
            write_leaves_the_rest(payload, steps, other, strip_node(node, names));
        },
        None => {},
    }
}

/// What a path leads to in a well-formed document is well-formed.
proof fn at_path_well_formed(j: JsonView, steps: Seq<Seq<char>>)
    requires
        well_formed(j),
    ensures
        at_path(j, steps) matches Some(x) ==> well_formed(x),
    decreases steps.len(),
{
    if steps.len() > 0 {
        match step_into(j, steps[0]) {
            Some(child) => {
                match j {
                    JsonView::Object(e) => {
                        entries_well_formed(e, steps[0], JsonView::Null, Set::empty());
                    },
                    _ => {},
                }
                at_path_well_formed(child, steps.drop_first());
            },
            None => {},
        }
    }
}

/// The objects of a well-formed list have ascending keys.
proof fn objects_ascend(items: Seq<JsonView>, i: int)
    requires
        forall|k: int| 0 <= k < items.len() ==> well_formed(#[trigger] items[k]),
        0 <= i < objects_of(items).len(),
    ensures
        ascending(objects_of(items)[i]),
    decreases items.len(),
{
    let head = items.drop_last();
    assert forall|k: int| 0 <= k < head.len() implies well_formed(#[trigger] head[k]) by {
        assert(head[k] == items[k]);
    }
    if i < objects_of(head).len() {
        objects_ascend(head, i);
    } else {
        assert(well_formed(items[items.len() - 1]));
    }
}

/// The drifts of all records hold those of each.
proof fn all_drifts_hold(records: Seq<Entries>, contract: Seq<FieldView>, i: int, d: DriftView)
    requires
        0 <= i < records.len(),
        record_drifts(records[i], contract).contains(d),
    ensures
        all_drifts(records, contract).contains(d),
    decreases records.len(),
{
    let head = records.drop_last();
    in_either(all_drifts(head, contract), record_drifts(records.last(), contract), d);
    if i < head.len() {
        all_drifts_hold(head, contract, i, d);
    }
}

/// A payload that was stripped for its drifts has no record with a drift left of
/// a kind whose action is to strip, other than missing fields.
pub proof fn stripped_payload_has_no_stripped_drift(
    payload: JsonView,
    path: Seq<char>,
    contract: Seq<FieldView>,
    a: Actions,
    i: int,
    d: DriftView,
)
    requires
        well_formed(payload),
        0 <= i < records_at(payload, path).len(),
        calls_for_removal(d, a),
    ensures
        ({
            let records = records_at(payload, path);
            let strip = decision_of(all_drifts(records, contract), a).strip;
            let kept = records_at(strip_at(payload, steps_of(path), strip), path);
            &&& kept.len() == records.len()
            &&& !record_drifts(kept[i], contract).contains(d)
        }),
{
    let steps = steps_of(path);
    let records = records_at(payload, path);
    let drifts = all_drifts(records, contract);
    let strip = decision_of(drifts, a).strip;
    strip_reaches_every_record(payload, steps, strip);
    at_path_well_formed(payload, steps);
    match at_path(payload, steps) {
        Some(JsonView::List(items)) => {
            objects_ascend(items, i);
        },
        _ => {},
    }
    assert forall|x: DriftView| record_drifts(records[i], contract).contains(
        x,
    ) implies #[trigger] drifts.contains(x) by {
        all_drifts_hold(records, contract, i, x);
    }
    stripped_kinds_are_gone(records[i], contract, drifts, a, d);
}

// ---- responses ----

/// What a document with ascending keys holds after a member is put.
pub proof fn with_member_law(j: JsonView, k: Seq<char>, v: JsonView)
    requires
        j matches JsonView::Object(e) && ascending(e),
    ensures
        with_member(j, k, v) matches JsonView::Object(e) && ascending(e),
        member(with_member(j, k, v), k) == Some(v),
        forall|q: Seq<char>| q != k ==> #[trigger] member(with_member(j, k, v), q) == member(j, q),
{
    match j {
        JsonView::Object(e) => {
            put_law(e, k, v);
        },
        _ => {},
    }
}

/// The annotation says the outcome, the asset's identity, the drifts and the
/// source.
pub proof fn annotation_says(
    status: Seq<char>,
    asset_id: Seq<char>,
    cc: ContractView,
    drift: Seq<char>,
)
    ensures
        ({
            let note = annotation(status, asset_id, cc, drift);
            &&& member(note, "status"@) == Some(JsonView::Text(status))
            &&& member(note, "assetId"@) == Some(JsonView::Text(asset_id))
            &&& member(note, "name"@) == Some(text_or_null(cc.name))
            &&& member(note, "externalId"@) == Some(text_or_null(cc.external_id))
            &&& member(note, "drift"@) == Some(JsonView::Text(drift))
            &&& member(note, "source"@) == Some(JsonView::Text("cdgc"@))
        }),
{
    reveal_strlit("status");
    reveal_strlit("assetId");
    reveal_strlit("name");
    reveal_strlit("externalId");
    reveal_strlit("drift");
    reveal_strlit("source");
    assert("status"@[1] != "source"@[1]);
    let a = with_member(empty_object(), "status"@, JsonView::Text(status));
    let b = with_member(a, "assetId"@, JsonView::Text(asset_id));
    let c = with_member(b, "name"@, text_or_null(cc.name));
    let d = with_member(c, "externalId"@, text_or_null(cc.external_id));
    let e = with_member(d, "drift"@, JsonView::Text(drift));
    with_member_law(empty_object(), "status"@, JsonView::Text(status));
    with_member_law(a, "assetId"@, JsonView::Text(asset_id));
    with_member_law(b, "name"@, text_or_null(cc.name));
    with_member_law(c, "externalId"@, text_or_null(cc.external_id));
    with_member_law(d, "drift"@, JsonView::Text(drift));
    with_member_law(e, "source"@, JsonView::Text("cdgc"@));
}

/// A rejected response is replaced as a whole: what is sent is an error with the
/// code of a contract violation and the drifts in its message, has no result,
/// and as a JSON-RPC error carries the request's id.
pub proof fn rejection_is_an_error(
    place: Place,
    ctx: CtxView,
    cc: ContractView,
    drift: Seq<char>,
)
    ensures
        ({
            let sent = rejection(place, ctx, cc, drift);
            &&& member(sent, "result"@) is None
            &&& member(sent, "error"@) == Some(violation(ctx.asset_id, drift))
            &&& member(violation(ctx.asset_id, drift), "code"@) == Some(
                JsonView::Number(number_from(RPC_CONTRACT_VIOLATION)),
            )
            &&& member(violation(ctx.asset_id, drift), "message"@) == Some(
                JsonView::Text(violation_message(ctx.asset_id, drift)),
            )
            &&& place != Place::Rest ==> member(sent, "id"@) == Some(ctx.rpc_id)
            &&& place == Place::Rest ==> member(sent, "_contract"@) == Some(
                annotation("rejected"@, ctx.asset_id, cc, drift),
            )
        }),
{
    reveal_strlit("result");
    reveal_strlit("error");
    reveal_strlit("code");
    reveal_strlit("message");
    reveal_strlit("id");
    reveal_strlit("jsonrpc");
    reveal_strlit("_contract");
    let code = JsonView::Number(number_from(RPC_CONTRACT_VIOLATION));
    with_member_law(empty_object(), "code"@, code);
    with_member_law(
        with_member(empty_object(), "code"@, code),
        "message"@,
        JsonView::Text(violation_message(ctx.asset_id, drift)),
    );
    let error = violation(ctx.asset_id, drift);
    with_member_law(empty_object(), "error"@, error);
    with_member_law(
        with_member(empty_object(), "error"@, error),
        "_contract"@,
        annotation("rejected"@, ctx.asset_id, cc, drift),
    );
    let head = with_member(empty_object(), "jsonrpc"@, JsonView::Text("2.0"@));
    with_member_law(empty_object(), "jsonrpc"@, JsonView::Text("2.0"@));
    with_member_law(head, "id"@, ctx.rpc_id);
    with_member_law(with_member(head, "id"@, ctx.rpc_id), "error"@, error);
    assert(member(empty_object(), "result"@) is None);
}

/// Contract-breaking data never leaves: what is sent for a rejected response
/// depends on the response only by its drift summary and by whether it came in
/// an envelope.
pub proof fn rejected_data_is_withheld(
    rpc: JsonView,
    other: JsonView,
    is_sse: bool,
    ctx: CtxView,
    cc: ContractView,
    actions: Actions,
    path: Seq<char>,
)
    requires
        is_envelope(rpc, is_sse) == is_envelope(other, is_sse),
    ensures
        guarded(rpc, is_sse, ctx, cc, actions, path) matches Some((sent, d)) ==> (guarded(
            other,
            is_sse,
            ctx,
            cc,
            actions,
            path,
        ) matches Some((sent_other, d_other)) ==> (d.reject && d_other.reject && d.summary
            == d_other.summary ==> sent == sent_other)),
{
}

/// A drift whose action is to reject blocks the whole response, whatever the
/// other drifts call for.
pub proof fn reject_takes_precedence(
    rpc: JsonView,
    is_sse: bool,
    ctx: CtxView,
    cc: ContractView,
    actions: Actions,
    path: Seq<char>,
    payload: JsonView,
    place: Place,
    i: int,
)
    requires
        cc.fields.len() > 0,
        located(rpc, is_sse) == Some((payload, place)),
        0 <= i < all_drifts(records_at(payload, path), cc.fields).len(),
        action_for(actions, all_drifts(records_at(payload, path), cc.fields)[i].kind)
            == Action::Reject,
    ensures
        guarded(rpc, is_sse, ctx, cc, actions, path) matches Some((sent, d)) && d.reject && sent
            == rejection(place, ctx, cc, d.summary),
{
    let drifts = all_drifts(records_at(payload, path), cc.fields);
    assert(calls_for(drifts, actions, Action::Reject));
}

/// Records that conform have no drift together.
proof fn conforming_records_are_clean(records: Seq<Entries>, contract: Seq<FieldView>)
    requires
        forall|i: int| 0 <= i < records.len() ==> conforms(#[trigger] records[i], contract),
    ensures
        all_drifts(records, contract) == Seq::<DriftView>::empty(),
    decreases records.len(),
{
    if records.len() > 0 {
        let head = records.drop_last();
        assert forall|i: int| 0 <= i < head.len() implies conforms(#[trigger] head[i], contract) by {
            assert(conforms(records[i], contract));
        }
        conforming_records_are_clean(head, contract);
        assert(conforms(records[records.len() - 1], contract));
        clean_means_conforming(records.last(), contract);
        assert(all_drifts(records, contract) =~= Seq::<DriftView>::empty());
    }
}

/// A response whose records all conform is sent as it is, annotated as `ok` with
/// no drift.
pub proof fn conforming_response_is_kept(
    rpc: JsonView,
    is_sse: bool,
    ctx: CtxView,
    cc: ContractView,
    actions: Actions,
    path: Seq<char>,
    payload: JsonView,
    place: Place,
)
    requires
        cc.fields.len() > 0,
        located(rpc, is_sse) == Some((payload, place)),
        records_at(payload, path).len() > 0,
        forall|i: int|
            0 <= i < records_at(payload, path).len() ==> conforms(
                #[trigger] records_at(payload, path)[i],
                cc.fields,
            ),
    ensures
        guarded(rpc, is_sse, ctx, cc, actions, path) matches Some((sent, d)) && !d.reject && sent
            == written(
            rpc,
            place,
            with_member(payload, "_contract"@, annotation("ok"@, ctx.asset_id, cc, seq![])),
        ),
{
    conforming_records_are_clean(records_at(payload, path), cc.fields);
    no_drift_no_action(actions);
}

/// Without a contract every response passes as it is.
pub proof fn no_contract_passes(
    rpc: JsonView,
    is_sse: bool,
    ctx: CtxView,
    cc: ContractView,
    actions: Actions,
    path: Seq<char>,
)
    requires
        cc.fields.len() == 0,
    ensures
        guarded(rpc, is_sse, ctx, cc, actions, path) is None,
{
}

/// Stripping keeps a document well-formed.
pub proof fn strip_keeps_well_formed(
    payload: JsonView,
    steps: Seq<Seq<char>>,
    names: Set<Seq<char>>,
)
    requires
        well_formed(payload),
    ensures
        well_formed(strip_at(payload, steps, names)),
        payload is Object <==> strip_at(payload, steps, names) is Object,
{
    at_path_well_formed(payload, steps);
    match at_path(payload, steps) {
        Some(node) => {
            let changed = strip_node(node, names);
            match node {
                JsonView::Object(e) => {
                    entries_well_formed(e, seq![], JsonView::Null, names);
                },
                JsonView::List(items) => {
                    let now = changed->List_0;
                    assert forall|i: int| 0 <= i < now.len() implies well_formed(
                        #[trigger] now[i],
                    ) by {
                        assert(well_formed(items[i]));
                        match items[i] {
                            JsonView::Object(e) => {
                                entries_well_formed(e, seq![], JsonView::Null, names);
                            },
                            _ => {},
                        }
                    }
                },
                _ => {},
            }
            write_keeps_well_formed(payload, steps, changed);
        },
        None => {},
    }
}

/// A response that is not rejected keeps every member of its payload but the
/// annotation, less what was stripped; and a payload that is an object carries
/// the annotation.
pub proof fn repaired_payload_is_annotated(
    payload: JsonView,
    d: DecisionView,
    asset_id: Seq<char>,
    cc: ContractView,
    path: Seq<char>,
)
    requires
        well_formed(payload),
        payload is Object,
    ensures
        ({
            let sent = repaired(payload, d, asset_id, cc, path);
            let kept = if d.strip != Set::<Seq<char>>::empty() {
                strip_at(payload, steps_of(path), d.strip)
            } else {
                payload
            };
            &&& member(sent, "_contract"@) == Some(
                annotation(status_of(d), asset_id, cc, d.summary),
            )
            &&& forall|q: Seq<char>|
                q != "_contract"@ ==> #[trigger] member(sent, q) == member(kept, q)
        }),
{
    strip_keeps_well_formed(payload, steps_of(path), d.strip);
    let kept = if d.strip != Set::<Seq<char>>::empty() {
        strip_at(payload, steps_of(path), d.strip)
    } else {
        payload
    };
    with_member_law(kept, "_contract"@, annotation(status_of(d), asset_id, cc, d.summary));
}

/// A record that gets another field has the same drifts at every field but that
/// one.
proof fn other_drifts_stay(
    record: Entries,
    k: Seq<char>,
    v: JsonView,
    contract: Seq<FieldView>,
    d: DriftView,
)
    requires
        ascending(record),
        d.field != k,
    ensures
        record_drifts(put(record, k, v), contract).contains(d) == record_drifts(
            record,
            contract,
        ).contains(d),
{
    put_law(record, k, v);
    let more = put(record, k, v);
    drifts_are_exact(record, contract, d);
    drifts_are_exact(more, contract, d);
    assert(lookup(more, d.field) == lookup(record, d.field));
}

/// The records of a response that is not rejected have no drift left of a kind
/// whose action is to strip, other than missing fields and the annotation
/// itself, where the payload is the record.
pub proof fn repaired_records_have_no_stripped_drift(
    payload: JsonView,
    asset_id: Seq<char>,
    cc: ContractView,
    actions: Actions,
    path: Seq<char>,
    i: int,
    d: DriftView,
)
    requires
        well_formed(payload),
        steps_of(path).len() > 0 ==> steps_of(path)[0] != "_contract"@,
        steps_of(path).len() == 0 && payload is Object ==> d.field != "_contract"@,
        0 <= i < records_at(payload, path).len(),
        calls_for_removal(d, actions),
    ensures
        ({
            let dec = decision_of(all_drifts(records_at(payload, path), cc.fields), actions);
            let sent = repaired(payload, dec, asset_id, cc, path);
            &&& records_at(sent, path).len() == records_at(payload, path).len()
            &&& !record_drifts(records_at(sent, path)[i], cc.fields).contains(d)
        }),
{
    let steps = steps_of(path);
    let drifts = all_drifts(records_at(payload, path), cc.fields);
    let dec = decision_of(drifts, actions);
    let note = annotation(status_of(dec), asset_id, cc, dec.summary);
    let kept = if dec.strip != Set::<Seq<char>>::empty() {
        strip_at(payload, steps, dec.strip)
    } else {
        payload
    };
    let sent = repaired(payload, dec, asset_id, cc, path);
    stripped_payload_has_no_stripped_drift(payload, path, cc.fields, actions, i, d);
    strip_keeps_well_formed(payload, steps, dec.strip);
    let records = records_at(payload, path);
    if dec.strip == Set::<Seq<char>>::empty() && record_drifts(records[i], cc.fields).contains(d) {
        all_drifts_hold(records, cc.fields, i, d);
        let k = choose|k: int| 0 <= k < drifts.len() && drifts[k] == d;
        assert(calls_for_removal(drifts[k], actions));
        assert(dec.strip.contains(d.field));
    }
    match kept {
        JsonView::Object(e) => {
            with_member_law(kept, "_contract"@, note);
            if steps.len() == 0 {
                other_drifts_stay(e, "_contract"@, note, cc.fields, d);
            } else {
                assert(member(sent, steps[0]) == member(kept, steps[0]));
                assert(at_path(sent, steps) == at_path(kept, steps));
            }
        },
        _ => {},
    }
}

/// A payload that was found as structured content is found there again after it
/// was written back, and every member of the envelope but its result is kept.
pub proof fn structured_content_reads_back(rpc: JsonView, is_sse: bool, payload: JsonView)
    requires
        well_formed(rpc),
        located(rpc, is_sse) matches Some((_, Place::Structured)),
    ensures
        located(written(rpc, Place::Structured, payload), is_sse) == Some(
            (payload, Place::Structured),
        ),
        forall|q: Seq<char>|
            q != "result"@ ==> #[trigger] member(written(rpc, Place::Structured, payload), q)
                == member(rpc, q),
{
    reveal_strlit("result");
    reveal_strlit("jsonrpc");
    reveal_strlit("id");
    reveal_strlit("content");
    reveal_strlit("structuredContent");
    let result = member(rpc, "result"@)->0;
    entries_well_formed(rpc->Object_0, "result"@, JsonView::Null, Set::empty());
    let changed = with_member(result, "structuredContent"@, payload);
    with_member_law(result, "structuredContent"@, payload);
    let full = mirrored(changed, json_text(payload));
    match list_member(changed, "content"@) {
        Some(items) => match first_text_item(items, 0) {
            Some(i) => {
                with_member_law(
                    changed,
                    "content"@,
                    JsonView::List(
                        items.update(
                            i,
                            with_member(items[i], "text"@, JsonView::Text(json_text(payload))),
                        ),
                    ),
                );
            },
            None => {},
        },
        None => {},
    }
    assert(member(full, "structuredContent"@) == Some(payload));
    with_member_law(rpc, "result"@, full);
}

/// A payload that was found in a content item stands there again after it was
/// written back, as the document that its text reads as; and every member of the
/// envelope but its result is kept, and of the result every member but its
/// content.
pub proof fn embedded_content_reads_back(
    rpc: JsonView,
    is_sse: bool,
    payload: JsonView,
    i: usize,
)
    requires
        well_formed(rpc),
        located(rpc, is_sse) matches Some((_, Place::Content(k))) && k == i,
        list_member(member(rpc, "result"@)->0, "content"@)->0.len() <= usize::MAX,
    ensures
        ({
            let sent = written(rpc, Place::Content(i), payload);
            &&& json_of_text(json_text(payload)) matches Some(p) ==> located(sent, is_sse) == Some(
                (p, Place::Content(i)),
            )
            &&& forall|q: Seq<char>|
                q != "result"@ ==> #[trigger] member(sent, q) == member(rpc, q)
            &&& forall|q: Seq<char>|
                q != "content"@ ==> #[trigger] member(member(sent, "result"@)->0, q) == member(
                    member(rpc, "result"@)->0,
                    q,
                )
        }),
{
    reveal_strlit("result");
    reveal_strlit("jsonrpc");
    reveal_strlit("id");
    reveal_strlit("content");
    reveal_strlit("structuredContent");
    reveal_strlit("text");
    reveal_strlit("type");
    assert("text"@[1] != "type"@[1]);
    let result = member(rpc, "result"@)->0;
    let items = list_member(result, "content"@)->0;
    entries_well_formed(rpc->Object_0, "result"@, JsonView::Null, Set::empty());
    entries_well_formed(result->Object_0, "content"@, JsonView::Null, Set::empty());
    first_embedding_is_first(items, 0);
    let item = items[i as int];
    assert(well_formed(item));
    let text = JsonView::Text(json_text(payload));
    let new_item = with_member(item, "text"@, text);
    with_member_law(item, "text"@, text);
    assert(member(new_item, "type"@) == member(item, "type"@));
    let new_items = items.update(i as int, new_item);
    with_member_law(result, "content"@, JsonView::List(new_items));
    let new_result = with_member(result, "content"@, JsonView::List(new_items));
    with_member_law(rpc, "result"@, new_result);
    let sent = written(rpc, Place::Content(i), payload);
    assert(member(sent, "result"@) == Some(new_result));
    if json_of_text(json_text(payload)) is Some {
        assert(embedded(new_item) == json_of_text(json_text(payload)));
        first_embedding_at(new_items, 0, i as int);
    }
}

/// The first item that embeds a document embeds one, and none before it does.
pub proof fn first_embedding_is_first(items: Seq<JsonView>, from: int)
    requires
        0 <= from <= items.len(),
        first_embedding(items, from) is Some,
    ensures
        first_embedding(items, from) matches Some((i, doc)) && from <= i < items.len()
            && embedded(items[i]) == Some(doc) && forall|k: int|
            from <= k < i ==> embedded(#[trigger] items[k]) is None,
    decreases items.len() - from,
{
    if embedded(items[from]) is None {
        first_embedding_is_first(items, from + 1);
    }
}

/// An item that embeds a document, with none before it that does, is the first.
pub proof fn first_embedding_at(items: Seq<JsonView>, from: int, i: int)
    requires
        0 <= from <= i < items.len(),
        embedded(items[i]) is Some,
        forall|k: int| from <= k < i ==> embedded(#[trigger] items[k]) is None,
    ensures
        first_embedding(items, from) == Some((i, embedded(items[i])->0)),
    decreases i - from,
{
    if from < i {
        assert(embedded(items[from]) is None);
        first_embedding_at(items, from + 1, i);
    }
}

// ---- event streams ----

/// Splitting at a separator that stands between two texts splits the two texts.
pub proof fn pieces_of_two(a: Seq<char>, b: Seq<char>, sep: char)
    ensures
        pieces(a.push(sep) + b, sep) == pieces(a, sep) + pieces(b, sep),
    decreases b.len(),
{
    let whole = a.push(sep) + b;
    if b.len() == 0 {
        assert(whole =~= a.push(sep));
        assert(whole.drop_last() =~= a);
        assert(pieces(whole, sep) =~= pieces(a, sep) + pieces(b, sep));
    } else {
        pieces_of_two(a, b.drop_last(), sep);
        pieces_join_back(b.drop_last(), sep);
        assert(whole.drop_last() =~= a.push(sep) + b.drop_last());
        assert(pieces(whole, sep) =~= pieces(a, sep) + pieces(b, sep));
    }
}

/// A text without the separator is one piece.
pub proof fn one_piece(s: Seq<char>, sep: char)
    requires
        !s.contains(sep),
    ensures
        pieces(s, sep) == seq![s],
    decreases s.len(),
{
    if s.len() > 0 {
        let head = s.drop_last();
        assert(!head.contains(sep)) by {
            if head.contains(sep) {
                let i = choose|i: int| 0 <= i < head.len() && head[i] == sep;
                assert(s[i] == sep);
            }
        }
        one_piece(head, sep);
        assert(s.last() != sep) by {
            assert(s[s.len() - 1] == s.last());
        }
        assert(pieces(s, sep) =~= seq![s]) by {
            assert(head.push(s.last()) =~= s);
        }
    } else {
        assert(s =~= seq![]);
        assert(pieces(s, sep) =~= seq![s]);
    }
}

/// What is framed is read back: of an event the document is that of its data
/// line, which holds the whole text, and any other text is read as it is.
pub proof fn frame_reads_back(text: Seq<char>, is_sse: bool)
    requires
        !text.contains('\n'),
    ensures
        document_of(framed(text, is_sse), is_sse) == json_of_text(
            if is_sse {
                trimmed(text)
            } else {
                text
            },
        ),
{
    if is_sse {
        reveal_strlit("event: message\ndata: ");
        reveal_strlit("\n\n");
        reveal_strlit("data:");
        let head = "event: message\ndata: "@.take(14);
        let data = "data: "@;
        reveal_strlit("data: ");
        let line = data + text;
        let empty = Seq::<char>::empty();
        assert("event: message\ndata: "@ =~= head.push('\n') + data);
        let rest = line.push('\n') + empty.push('\n');
        assert(framed(text, true) =~= head.push('\n') + rest);
        assert(!head.contains('\n'));
        assert(!line.contains('\n')) by {
            if line.contains('\n') {
                let i = choose|i: int| 0 <= i < line.len() && line[i] == '\n';
                if i >= data.len() {
                    assert(text[i - data.len()] == '\n');
                }
            }
        }
        pieces_of_two(head, rest, '\n');
        one_piece(head, '\n');
        pieces_of_two(line, empty.push('\n'), '\n');
        one_piece(line, '\n');
        assert(empty.push('\n') + empty =~= empty.push('\n'));
        pieces_of_two(empty, empty, '\n');
        one_piece(empty, '\n');
        let lines = pieces(framed(text, true), '\n');
        assert(lines =~= seq![head, line, empty, empty]);
        assert(head[0] == 'e');
        assert(trimmed_start(head) == head);
        assert(!matches_at(head, "data:"@, 0)) by {
            assert(head.subrange(0, 5)[0] == 'e');
            assert("data:"@[0] == 'd');
        }
        assert(trimmed_start(line) == line) by {
            assert(line[0] == 'd');
        }
        assert(line.subrange(0, 5) =~= "data:"@);
        let after = line.skip(5);
        assert(after =~= seq![' '] + text);
        assert(trimmed_start(after) == trimmed_start(text)) by {
            assert(after[0] == ' ');
            assert(after.drop_first() =~= text);
        }
        assert(data_of(line) == Some(trimmed(text)));
        assert(data_of(empty) is None);
        let l1 = lines.drop_first();
        assert(l1 =~= seq![line, empty, empty]);
        let l2 = l1.drop_first();
        assert(l2 =~= seq![empty, empty]);
        let l3 = l2.drop_first();
        assert(l3 =~= seq![empty]);
        assert(l3.drop_first() =~= seq![]);
        assert(first_document(l3.drop_first()) is None);
        assert(first_document(l3) is None);
        assert(first_document(l2) is None);
        assert(line_document(head) is None);
        assert(first_document(lines) == first_document(l1));
    }
}

} // verus!
