//! The records of a payload.

use crate::conformance::{
    analyze_record, apply_strip, drifts_view, fields_view, record_drifts, ContractField, Drift,
    DriftView, FieldView,
};
use crate::field_set::FieldSet;
use crate::json::{
    absent_strips_nothing, list_holds_items, list_view, lookup, optional_ref_view, put,
    put_after_strip, stripped, Entries, Json, JsonView, Record,
};
use crate::text::{index_value, parse_index, pieces, split, texts};
use vstd::prelude::*;

verus! {

// ---- paths ----

/// The steps of a `/`-path: its pieces that are not empty.
pub open spec fn steps_of(path: Seq<char>) -> Seq<Seq<char>> {
    pieces(path, '/').filter(|s: Seq<char>| s.len() > 0)
}

/// The steps of a `/`-path.
pub fn path_steps(path: &str) -> (r: Vec<String>)
    ensures
        texts(r@) == steps_of(path@),
{
    let parts = split(path, '/');
    let ghost all = texts(parts@);
    let ghost keep = |s: Seq<char>| s.len() > 0;
    let mut out: Vec<String> = Vec::new();
    let mut i: usize = 0;
    reveal(Seq::filter);
    assert(texts(out@) =~= all.take(0).filter(keep));
    while i < parts.len()
        invariant
            i <= parts@.len(),
            all == texts(parts@),
            keep == (|s: Seq<char>| s.len() > 0),
            texts(out@) == all.take(i as int).filter(keep),
        decreases parts@.len() - i,
    {
        reveal(Seq::filter);
        assert(all.take(i + 1).drop_last() =~= all.take(i as int));
        assert(all.take(i + 1).last() == parts@[i as int]@);
        if !parts[i].as_str().is_empty() {
            let ghost held = texts(out@);
            out.push(parts[i].clone());
            assert(texts(out@) =~= held.push(all[i as int]));
        }
        i = i + 1;
    }
    assert(all.take(i as int) =~= all);
    out
}

/// One step into a document: the value under a key, or the item at an index.
pub open spec fn step_into(j: JsonView, step: Seq<char>) -> Option<JsonView> {
    match j {
        JsonView::Object(e) => lookup(e, step),
        JsonView::List(items) => match index_value(step) {
            Some(i) if i < items.len() => Some(items[i as int]),
            _ => None,
        },
        _ => None,
    }
}

/// The document at the end of a path.
pub open spec fn at_path(j: JsonView, steps: Seq<Seq<char>>) -> Option<JsonView>
    decreases steps.len(),
{
    if steps.len() == 0 {
        Some(j)
    } else {
        match step_into(j, steps[0]) {
            Some(child) => at_path(child, steps.drop_first()),
            None => None,
        }
    }
}

/// One step into a document.
fn step_to<'a>(j: &'a Json, step: &str) -> (r: Option<&'a Json>)
    ensures
        optional_ref_view(r) == step_into(j@, step@),
{
    match j {
        Json::Object(record) => record.get(step),
        Json::List(items) => {
            proof {
                list_holds_items(*items);
            }
            match parse_index(step) {
                Some(i) => if i < items.len() {
                    Some(&items[i])
                } else {
                    None
                },
                None => None,
            }
        },
        _ => None,
    }
}

/// The document at the end of a path.
pub fn nav<'a>(root: &'a Json, path: &str) -> (r: Option<&'a Json>)
    ensures
        optional_ref_view(r) == at_path(root@, steps_of(path@)),
{
    let steps = path_steps(path);
    let ghost all = texts(steps@);
    let mut cur = root;
    let mut i: usize = 0;
    assert(all.skip(0) =~= all);
    while i < steps.len()
        invariant
            i <= steps@.len(),
            all == texts(steps@),
            all == steps_of(path@),
            at_path(root@, all) == at_path(cur@, all.skip(i as int)),
        decreases steps@.len() - i,
    {
        assert(all.skip(i as int)[0] == steps@[i as int]@);
        assert(all.skip(i as int).drop_first() =~= all.skip(i + 1));
        match step_to(cur, steps[i].as_str()) {
            Some(child) => {
                cur = child;
            },
            None => {
                return None;
            },
        }
        i = i + 1;
    }
    Some(cur)
}

/// The document with `w` at the end of a path; a path that leads nowhere changes
/// nothing.
pub open spec fn replaced_at(j: JsonView, steps: Seq<Seq<char>>, w: JsonView) -> JsonView
    decreases steps.len(),
{
    if steps.len() == 0 {
        w
    } else {
        match step_into(j, steps[0]) {
            Some(child) => {
                let changed = replaced_at(child, steps.drop_first(), w);
                match j {
                    JsonView::Object(e) => JsonView::Object(put(e, steps[0], changed)),
                    JsonView::List(items) => JsonView::List(
                        items.update(index_value(steps[0])->0 as int, changed),
                    ),
                    _ => j,
                }
            },
            None => j,
        }
    }
}

/// The document with a value at the end of the steps from `from` on.
fn replace_from(j: Json, steps: &Vec<String>, from: usize, value: Json) -> (r: Json)
    requires
        from <= steps@.len(),
    ensures
        r@ == replaced_at(j@, texts(steps@).skip(from as int), value@),
    decreases steps@.len() - from,
{
    let ghost rest = texts(steps@).skip(from as int);
    if from == steps.len() {
        return value;
    }
    assert(rest[0] == steps@[from as int]@);
    assert(rest.drop_first() =~= texts(steps@).skip(from + 1));
    match j {
        Json::Object(record) => {
            let mut record = record;
            record.ordered();
            let ghost e = record@;
            match record.remove(steps[from].as_str()) {
                Some(child) => {
                    let changed = replace_from(child, steps, from + 1, value);
                    proof {
                        put_after_strip(e, rest[0], changed@);
                    }
                    record.insert(steps[from].clone(), changed);
                    Json::Object(record)
                },
                None => {
                    proof {
                        absent_strips_nothing(e, rest[0]);
                    }
                    Json::Object(record)
                },
            }
        },
        Json::List(items) => {
            let mut items = items;
            proof {
                list_holds_items(items);
            }
            match parse_index(steps[from].as_str()) {
                Some(i) => {
                    if i < items.len() {
                        let ghost all = items@;
                        let child = items.remove(i);
                        let changed = replace_from(child, steps, from + 1, value);
                        items.insert(i, changed);
                        proof {
                            list_holds_items(items);
                            assert(list_view(items@) =~= list_view(all).update(i as int, changed@));
                        }
                        Json::List(items)
                    } else {
                        Json::List(items)
                    }
                },
                None => Json::List(items),
            }
        },
        other => other,
    }
}

/// Writes a value at the end of a path. A path that leads nowhere changes
/// nothing.
pub fn replace_at(root: Json, path: &str, value: Json) -> (r: Json)
    ensures
        r@ == replaced_at(root@, steps_of(path@), value@),
{
    let steps = path_steps(path);
    assert(texts(steps@).skip(0) =~= texts(steps@));
    replace_from(root, &steps, 0, value)
}

// ---- records ----

/// The objects among the documents.
pub open spec fn objects_of(items: Seq<JsonView>) -> Seq<Entries>
    decreases items.len(),
{
    if items.len() == 0 {
        seq![]
    } else {
        let done = objects_of(items.drop_last());
        match items.last() {
            JsonView::Object(e) => done.push(e),
            _ => done,
        }
    }
}

/// The records that a document stands for: the objects of a list, or one
/// object.
pub open spec fn records_in(node: Option<JsonView>) -> Seq<Entries> {
    match node {
        Some(JsonView::List(items)) => objects_of(items),
        Some(JsonView::Object(e)) => seq![e],
        _ => seq![],
    }
}

/// The records at a path of a payload.
pub open spec fn records_at(payload: JsonView, path: Seq<char>) -> Seq<Entries> {
    records_in(at_path(payload, steps_of(path)))
}

/// What the records hold.
pub open spec fn records_view(records: Seq<&Record>) -> Seq<Entries> {
    records.map_values(|r: &Record| r@)
}

/// The records at a path of a payload.
pub fn records_snapshot<'a>(payload: &'a Json, path: &str) -> (r: Vec<&'a Record>)
    ensures
        records_view(r@) == records_at(payload@, path@),
{
    let mut out: Vec<&'a Record> = Vec::new();
    match nav(payload, path) {
        Some(Json::List(items)) => {
            let ghost all = list_view(items@);
            proof {
                list_holds_items(*items);
            }
            let mut i: usize = 0;
            assert(records_view(out@) =~= objects_of(all.take(0)));
            while i < items.len()
                invariant
                    i <= items@.len(),
                    all == list_view(items@),
                    records_view(out@) == objects_of(all.take(i as int)),
                decreases items@.len() - i,
            {
                assert(all.take(i + 1).drop_last() =~= all.take(i as int));
                assert(all.take(i + 1).last() == items@[i as int]@);
                let ghost held = records_view(out@);
                match &items[i] {
                    Json::Object(record) => {
                        out.push(record);
                        assert(records_view(out@) =~= held.push(record@));
                    },
                    _ => {},
                }
                i = i + 1;
            }
            assert(all.take(i as int) =~= all);
        },
        Some(Json::Object(record)) => {
            out.push(record);
            assert(records_view(out@) =~= seq![record@]);
        },
        _ => {
            assert(records_view(out@) =~= seq![]);
        },
    }
    out
}

/// The drifts of all records, record by record.
pub open spec fn all_drifts(records: Seq<Entries>, contract: Seq<FieldView>) -> Seq<DriftView>
    decreases records.len(),
{
    if records.len() == 0 {
        seq![]
    } else {
        all_drifts(records.drop_last(), contract) + record_drifts(records.last(), contract)
    }
}

/// The drifts of all records, record by record.
pub fn analyze_records(records: &Vec<&Record>, contract: &[ContractField]) -> (r: Vec<Drift>)
    ensures
        drifts_view(r@) == all_drifts(records_view(records@), fields_view(contract@)),
{
    let ghost all = records_view(records@);
    let ghost fields = fields_view(contract@);
    let mut out: Vec<Drift> = Vec::new();
    let mut i: usize = 0;
    assert(drifts_view(out@) =~= all_drifts(all.take(0), fields));
    while i < records.len()
        invariant
            i <= records@.len(),
            all == records_view(records@),
            fields == fields_view(contract@),
            drifts_view(out@) == all_drifts(all.take(i as int), fields),
        decreases records@.len() - i,
    {
        assert(all.take(i + 1).drop_last() =~= all.take(i as int));
        assert(all.take(i + 1).last() == records@[i as int]@);
        let ghost held = drifts_view(out@);
        let mut found = analyze_record(records[i], contract);
        let ghost more = drifts_view(found@);
        out.append(&mut found);
        assert(drifts_view(out@) =~= held + more);
        i = i + 1;
    }
    assert(all.take(i as int) =~= all);
    out
}

// ---- stripping ----

/// A record without the names; any other document as it is.
pub open spec fn strip_object(j: JsonView, names: Set<Seq<char>>) -> JsonView {
    match j {
        JsonView::Object(e) => JsonView::Object(stripped(e, names)),
        _ => j,
    }
}

/// The records that a document stands for, without the names.
pub open spec fn strip_node(j: JsonView, names: Set<Seq<char>>) -> JsonView {
    match j {
        JsonView::List(items) => JsonView::List(
            items.map_values(|item: JsonView| strip_object(item, names)),
        ),
        _ => strip_object(j, names),
    }
}

/// A payload whose records at the path are without the names; a path that leads
/// nowhere changes nothing.
pub open spec fn strip_at(j: JsonView, steps: Seq<Seq<char>>, names: Set<Seq<char>>) -> JsonView {
    match at_path(j, steps) {
        Some(node) => replaced_at(j, steps, strip_node(node, names)),
        None => j,
    }
}

/// A record without the names; any other document as it is.
fn strip_one(j: Json, strip: &FieldSet) -> (r: Json)
    ensures
        r@ == strip_object(j@, strip@),
{
    match j {
        Json::Object(record) => {
            let mut record = record;
            let _ = apply_strip(&mut record, strip);
            Json::Object(record)
        },
        other => other,
    }
}

/// The records that a document stands for, without the names.
fn strip_each(j: Json, strip: &FieldSet) -> (r: Json)
    ensures
        r@ == strip_node(j@, strip@),
{
    match j {
        Json::List(items) => {
            proof {
                list_holds_items(items);
            }
            let ghost all = list_view(items@);
            let ghost changed = all.map_values(|item: JsonView| strip_object(item, strip@));
            let ghost given = items@;
            let mut out: Vec<Json> = Vec::new();
            for item in it: items
                invariant
                    it.seq() == given,
                    all == list_view(given),
                    changed == all.map_values(|item: JsonView| strip_object(item, strip@)),
                    list_view(out@) == changed.take(it.index() as int),
            {
                let ghost i = it.index() as int;
                let ghost held = list_view(out@);
                assert(item@ == all[i]);
                out.push(strip_one(item, strip));
                assert(list_view(out@) =~= held.push(changed[i]));
                assert(list_view(out@) =~= changed.take(i + 1));
            }
            assert(changed.take(changed.len() as int) =~= changed);
            proof {
                list_holds_items(out);
            }
            Json::List(out)
        },
        other => strip_one(other, strip),
    }
}

/// Removes the names from the records at a path of a payload.
pub fn strip_records(payload: Json, path: &str, strip: &FieldSet) -> (r: Json)
    ensures
        r@ == strip_at(payload@, steps_of(path@), strip@),
{
    let changed: Option<Json> = match nav(&payload, path) {
        Some(node) => Some(strip_each(node.copy(), strip)),
        None => None,
    };
    match changed {
        Some(node) => replace_at(payload, path, node),
        None => payload,
    }
}

} // verus!
