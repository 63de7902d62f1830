//! Contract conformance: drift analysis and decisions.
//!
//! A governed field contract is compared with the actual fields of a response
//! record. Each divergence is a typed [`Drift`], and a per-type [`Action`]
//! turns the drifts into a [`Decision`] that is applied to the response.

use crate::field_set::FieldSet;
use crate::json::{
    ascending, has_key, is_integer, keys_of, lookup, stripped, stripped_law, stripped_nothing,
    Entries, Json, JsonView, Record,
};
use crate::text::{
    chars_of, find_in, has_text, join, joined, lowercase, matches_at, occurs, optional_text,
    same_text, string_of, texts, to_lowercase,
};
use vstd::prelude::*;

verus! {

// ---- contracts ----

/// One governed field of a contract. `term`, the governing Business Term, is
/// carried for provenance and decides nothing.
#[derive(Debug, Clone, PartialEq)]
pub struct ContractField {
    pub name: String,
    pub ftype: Option<String>,
    pub required: bool,
    pub sensitive: bool,
    pub term: Option<String>,
}

/// What a governed field holds.
pub struct FieldView {
    pub name: Seq<char>,
    pub ftype: Option<Seq<char>>,
    pub required: bool,
    pub sensitive: bool,
    pub term: Option<Seq<char>>,
}

impl View for ContractField {
    type V = FieldView;

    open spec fn view(&self) -> FieldView {
        FieldView {
            name: self.name@,
            ftype: optional_text(self.ftype),
            required: self.required,
            sensitive: self.sensitive,
            term: optional_text(self.term),
        }
    }
}

/// What the fields of a contract hold.
pub open spec fn fields_view(contract: Seq<ContractField>) -> Seq<FieldView> {
    contract.map_values(|c: ContractField| c@)
}

/// The first position at which `needle` stands in `hay`.
pub open spec fn first_match(hay: Seq<char>, needle: Seq<char>) -> Option<int> {
    if occurs(hay, needle) {
        Some(
            choose|i: int|
                matches_at(hay, needle, i) && forall|j: int|
                    0 <= j < i ==> !matches_at(hay, needle, j),
        )
    } else {
        None
    }
}

/// The field block of a description: of what follows the first `marker`, the
/// part from the first `[` to the last `]`.
pub open spec fn block_of(description: Seq<char>, marker: Seq<char>) -> Option<Seq<char>> {
    match first_match(description, marker) {
        Some(p) => {
            let tail = description.skip(p + marker.len());
            match (tail.index_of_first('['), tail.index_of_last(']')) {
                (Some(start), Some(end)) => if start <= end {
                    Some(tail.subrange(start, end + 1))
                } else {
                    None
                },
                _ => None,
            }
        },
        None => None,
    }
}

/// The JSON field block that follows `marker` in an asset description, with
/// prose allowed before the marker and after the block.
pub fn contract_block(description: &str, marker: &str) -> (r: Option<String>)
    ensures
        optional_text(r) == block_of(description@, marker@),
{
    let chars = chars_of(description);
    let needle = chars_of(marker);
    let found: usize = match find_in(&chars, &needle) {
        Some(p) => p,
        None => {
            return None;
        },
    };
    let len: usize = chars.len();
    let from: usize = found + needle.len();
    let ghost tail = chars@.skip(from as int);
    assert(first_match(description@, marker@) == Some(found as int));
    proof {
        tail.index_of_first_ensures('[');
        tail.index_of_last_ensures(']');
    }
    let mut start: usize = from;
    while start < len && chars[start] != '['
        invariant
            from <= start <= len,
            len == chars@.len(),
            tail == chars@.skip(from as int),
            forall|j: int| 0 <= j < start - from ==> tail[j] != '[',
        decreases len - start,
    {
        start = start + 1;
    }
    if start == len {
        assert(!tail.contains('['));
        return None;
    }
    let mut end: usize = len;
    while end > start && chars[end - 1] != ']'
        invariant
            from <= start <= end <= len,
            len == chars@.len(),
            tail == chars@.skip(from as int),
            forall|j: int| end - from <= j < tail.len() ==> tail[j] != ']',
        decreases end,
    {
        end = end - 1;
    }
    proof {
        assert(tail[start - from] == '[');
        if tail.contains(']') {
            let k = choose|k: int| 0 <= k < tail.len() && tail[k] == ']';
            assert(k < end - from);
        }
    }
    if end == start {
        return None;
    }
    assert(tail[end - 1 - from] == ']');
    assert(chars@.subrange(start as int, end as int) =~= tail.subrange(start - from, end - from));
    Some(string_of(&chars, start, end))
}

// ---- actions and drifts ----

/// What to do about a drift.
#[derive(Debug, Clone, Copy, PartialEq, Eq, Structural)]
pub enum Action {
    Off,
    Log,
    Inform,
    Strip,
    Reject,
}

/// The action of a name; a name that is none of an action's is off.
pub open spec fn action_named(s: Seq<char>) -> Action {
    if s == "log"@ {
        Action::Log
    } else if s == "inform"@ {
        Action::Inform
    } else if s == "strip"@ {
        Action::Strip
    } else if s == "reject"@ {
        Action::Reject
    } else {
        Action::Off
    }
}

impl Action {
    /// The action of a name.
    pub fn parse(s: &str) -> (r: Action)
        ensures
            r == action_named(s@),
    {
        if same_text(s, "log") {
            Action::Log
        } else if same_text(s, "inform") {
            Action::Inform
        } else if same_text(s, "strip") {
            Action::Strip
        } else if same_text(s, "reject") {
            Action::Reject
        } else {
            Action::Off
        }
    }
}

/// How a record diverges from its contract.
#[derive(Debug, Clone, Copy, PartialEq, Eq, Structural)]
pub enum DriftKind {
    /// A field that is not in the contract.
    Unexpected,
    /// A required field that is absent.
    MissingRequired,
    /// A field whose JSON type is not the declared one.
    TypeMismatch,
    /// A sensitive field that is present.
    Sensitive,
}

/// The marker of a kind in a drift summary.
pub open spec fn marker_of(k: DriftKind) -> char {
    match k {
        DriftKind::Unexpected => '+',
        DriftKind::MissingRequired => '-',
        DriftKind::TypeMismatch => '~',
        DriftKind::Sensitive => '!',
    }
}

/// The name of a kind in a drift log line.
pub open spec fn kind_name(k: DriftKind) -> Seq<char> {
    match k {
        DriftKind::Unexpected => "Unexpected"@,
        DriftKind::MissingRequired => "MissingRequired"@,
        DriftKind::TypeMismatch => "TypeMismatch"@,
        DriftKind::Sensitive => "Sensitive"@,
    }
}

impl DriftKind {
    /// Compact marker used in the drift summary.
    pub fn marker(self) -> (r: char)
        ensures
            r == marker_of(self),
    {
        match self {
            DriftKind::Unexpected => '+',
            DriftKind::MissingRequired => '-',
            DriftKind::TypeMismatch => '~',
            DriftKind::Sensitive => '!',
        }
    }

    /// Name used in the drift log lines.
    pub fn name(self) -> (r: &'static str)
        ensures
            r@ == kind_name(self),
    {
        match self {
            DriftKind::Unexpected => "Unexpected",
            DriftKind::MissingRequired => "MissingRequired",
            DriftKind::TypeMismatch => "TypeMismatch",
            DriftKind::Sensitive => "Sensitive",
        }
    }
}

/// One divergence of a record from its contract.
#[derive(Debug, Clone, PartialEq)]
pub struct Drift {
    pub kind: DriftKind,
    pub field: String,
}

/// What a drift says.
pub struct DriftView {
    pub kind: DriftKind,
    pub field: Seq<char>,
}

impl View for Drift {
    type V = DriftView;

    open spec fn view(&self) -> DriftView {
        DriftView { kind: self.kind, field: self.field@ }
    }
}

/// What a list of drifts says.
pub open spec fn drifts_view(drifts: Seq<Drift>) -> Seq<DriftView> {
    drifts.map_values(|d: Drift| d@)
}

/// The action for each kind of drift.
#[derive(Debug, Clone, Copy)]
pub struct Actions {
    pub unexpected: Action,
    pub missing_required: Action,
    pub type_mismatch: Action,
    pub sensitive: Action,
}

/// The action for a kind.
pub open spec fn action_for(a: Actions, k: DriftKind) -> Action {
    match k {
        DriftKind::Unexpected => a.unexpected,
        DriftKind::MissingRequired => a.missing_required,
        DriftKind::TypeMismatch => a.type_mismatch,
        DriftKind::Sensitive => a.sensitive,
    }
}

impl Actions {
    /// The action for a kind.
    pub fn for_kind(&self, k: DriftKind) -> (r: Action)
        ensures
            r == action_for(*self, k),
    {
        match k {
            DriftKind::Unexpected => self.unexpected,
            DriftKind::MissingRequired => self.missing_required,
            DriftKind::TypeMismatch => self.type_mismatch,
            DriftKind::Sensitive => self.sensitive,
        }
    }
}

// ---- drift analysis ----

/// The document has the type that a lower-case type name declares. A name that
/// is none of a type's is met by every document.
pub open spec fn has_type(lower: Seq<char>, v: JsonView) -> bool {
    if lower == "string"@ {
        v is Text
    } else if lower == "number"@ || lower == "float"@ || lower == "double"@ || lower == "decimal"@ {
        v is Number
    } else if lower == "integer"@ || lower == "int"@ {
        is_integer(v)
    } else if lower == "boolean"@ || lower == "bool"@ {
        v is Bool
    } else if lower == "object"@ {
        v is Object
    } else if lower == "array"@ {
        v is List
    } else {
        true
    }
}

/// Whether the document has the type that a lower-case type name declares.
pub fn lower_type_matches(lower: &str, v: &Json) -> (r: bool)
    ensures
        r == has_type(lower@, v@),
{
    if same_text(lower, "string") {
        matches!(v, Json::Text(_))
    } else if same_text(lower, "number") || same_text(lower, "float") || same_text(lower, "double")
        || same_text(lower, "decimal") {
        v.is_number()
    } else if same_text(lower, "integer") || same_text(lower, "int") {
        v.is_integer()
    } else if same_text(lower, "boolean") || same_text(lower, "bool") {
        matches!(v, Json::Bool(_))
    } else if same_text(lower, "object") {
        matches!(v, Json::Object(_))
    } else if same_text(lower, "array") {
        matches!(v, Json::List(_))
    } else {
        true
    }
}

/// Whether the document has the declared type; the type's name is read in any
/// letter case.
pub fn type_matches(ftype: &str, v: &Json) -> (r: bool)
    ensures
        r == has_type(lowercase(ftype@), v@),
{
    lower_type_matches(to_lowercase(ftype).as_str(), v)
}

/// The drifts of a record at one field of its contract: absent and required;
/// or present, and sensitive, of another type than declared, or both.
pub open spec fn field_drifts(record: Entries, c: FieldView) -> Seq<DriftView> {
    match lookup(record, c.name) {
        None => if c.required {
            seq![DriftView { kind: DriftKind::MissingRequired, field: c.name }]
        } else {
            seq![]
        },
        Some(v) => {
            let leak = if c.sensitive {
                seq![DriftView { kind: DriftKind::Sensitive, field: c.name }]
            } else {
                seq![]
            };
            match c.ftype {
                Some(t) if !has_type(lowercase(t), v) => leak.push(
                    DriftView { kind: DriftKind::TypeMismatch, field: c.name },
                ),
                _ => leak,
            }
        },
    }
}

/// The drifts of a record at the fields of its contract, field by field.
pub open spec fn contract_drifts(record: Entries, contract: Seq<FieldView>) -> Seq<DriftView>
    decreases contract.len(),
{
    if contract.len() == 0 {
        seq![]
    } else {
        contract_drifts(record, contract.drop_last()) + field_drifts(record, contract.last())
    }
}

/// A field of the contract has the name.
pub open spec fn governed(contract: Seq<FieldView>, name: Seq<char>) -> bool {
    exists|i: int| 0 <= i < contract.len() && (#[trigger] contract[i]).name == name
}

/// The drifts of the keys that no field of the contract has, in key order.
pub open spec fn unexpected_drifts(keys: Seq<Seq<char>>, contract: Seq<FieldView>) -> Seq<DriftView>
    decreases keys.len(),
{
    if keys.len() == 0 {
        seq![]
    } else {
        let done = unexpected_drifts(keys.drop_last(), contract);
        if governed(contract, keys.last()) {
            done
        } else {
            done.push(DriftView { kind: DriftKind::Unexpected, field: keys.last() })
        }
    }
}

/// All drifts of a record from its contract.
pub open spec fn record_drifts(record: Entries, contract: Seq<FieldView>) -> Seq<DriftView> {
    contract_drifts(record, contract) + unexpected_drifts(keys_of(record), contract)
}

/// Whether a field of the contract has the name.
fn is_governed(contract: &[ContractField], name: &String) -> (r: bool)
    ensures
        r == governed(fields_view(contract@), name@),
{
    let ghost fields = fields_view(contract@);
    let mut i: usize = 0;
    while i < contract.len()
        invariant
            i <= contract@.len(),
            fields == fields_view(contract@),
            forall|j: int| 0 <= j < i ==> (#[trigger] fields[j]).name != name@,
        decreases contract@.len() - i,
    {
        if contract[i].name == *name {
            assert(fields[i as int].name == name@);
            return true;
        }
        i = i + 1;
    }
    false
}

/// Compute all drifts of one response record from the contract.
pub fn analyze_record(record: &Record, contract: &[ContractField]) -> (r: Vec<Drift>)
    ensures
        drifts_view(r@) == record_drifts(record@, fields_view(contract@)),
{
    let ghost fields = fields_view(contract@);
    let mut drifts: Vec<Drift> = Vec::new();
    let mut i: usize = 0;
    assert(drifts_view(drifts@) =~= contract_drifts(record@, fields.take(0)));
    while i < contract.len()
        invariant
            i <= contract@.len(),
            fields == fields_view(contract@),
            drifts_view(drifts@) == contract_drifts(record@, fields.take(i as int)),
        decreases contract@.len() - i,
    {
        let ghost held = drifts_view(drifts@);
        let c = &contract[i];
        let ghost f = fields[i as int];
        assert(f == c@);
        match record.get(c.name.as_str()) {
            None => {
                if c.required {
                    drifts.push(
                        Drift { kind: DriftKind::MissingRequired, field: c.name.clone() },
                    );
                }
            },
            Some(v) => {
                if c.sensitive {
                    drifts.push(Drift { kind: DriftKind::Sensitive, field: c.name.clone() });
                }
                match &c.ftype {
                    Some(t) => {
                        if !type_matches(t.as_str(), v) {
                            drifts.push(
                                Drift { kind: DriftKind::TypeMismatch, field: c.name.clone() },
                            );
                        }
                    },
                    None => {},
                }
            },
        }
        assert(drifts_view(drifts@) =~= held + field_drifts(record@, f));
        assert(fields.take(i + 1).drop_last() =~= fields.take(i as int));
        i = i + 1;
    }
    assert(fields.take(i as int) =~= fields);
    let keys = record.keys();
    let ghost names = keys_of(record@);
    let ghost first = contract_drifts(record@, fields);
    let mut k: usize = 0;
    assert(drifts_view(drifts@) =~= first + unexpected_drifts(names.take(0), fields));
    while k < keys.len()
        invariant
            k <= keys@.len(),
            names == texts(keys@),
            fields == fields_view(contract@),
            drifts_view(drifts@) == first + unexpected_drifts(names.take(k as int), fields),
        decreases keys@.len() - k,
    {
        let ghost held = drifts_view(drifts@);
        assert(names.take(k + 1).drop_last() =~= names.take(k as int));
        if !is_governed(contract, &keys[k]) {
            drifts.push(Drift { kind: DriftKind::Unexpected, field: keys[k].clone() });
            assert(drifts_view(drifts@) =~= held.push(
                DriftView { kind: DriftKind::Unexpected, field: names[k as int] },
            ));
        }
        k = k + 1;
        assert(drifts_view(drifts@) =~= first + unexpected_drifts(names.take(k as int), fields));
    }
    assert(names.take(k as int) =~= names);
    drifts
}

// ---- decisions ----

/// What the guard does about the drifts of a response.
#[derive(Debug, PartialEq)]
pub struct Decision {
    /// The whole response is withheld.
    pub reject: bool,
    /// The fields to remove from every record.
    pub strip: FieldSet,
    /// The drift is reported in the response.
    pub inform: bool,
    /// The drifts that are not off, each once.
    pub summary: String,
    /// The log lines.
    pub logged: Vec<String>,
}

/// What a decision says.
pub struct DecisionView {
    pub reject: bool,
    pub strip: Set<Seq<char>>,
    pub inform: bool,
    pub summary: Seq<char>,
    pub logged: Seq<Seq<char>>,
}

impl View for Decision {
    type V = DecisionView;

    open spec fn view(&self) -> DecisionView {
        DecisionView {
            reject: self.reject,
            strip: self.strip@,
            inform: self.inform,
            summary: self.summary@,
            logged: texts(self.logged@),
        }
    }
}

impl Default for Decision {
    fn default() -> (r: Decision)
        ensures
            !r.reject,
            r.strip@ == Set::<Seq<char>>::empty(),
            !r.inform,
            r.summary@ == Seq::<char>::empty(),
            r.logged@ == Seq::<String>::empty(),
    {
        Decision {
            reject: false,
            strip: FieldSet::new(),
            inform: false,
            summary: String::new(),
            logged: Vec::new(),
        }
    }
}

/// Some drift calls for the action.
pub open spec fn calls_for(drifts: Seq<DriftView>, a: Actions, act: Action) -> bool {
    exists|i: int| 0 <= i < drifts.len() && action_for(a, (#[trigger] drifts[i]).kind) == act
}

/// The drift calls for the removal of its field. A missing field cannot be
/// removed.
pub open spec fn calls_for_removal(d: DriftView, a: Actions) -> bool {
    action_for(a, d.kind) == Action::Strip && d.kind != DriftKind::MissingRequired
}

/// The drift is to be reported: by its action, or because the removal that its
/// action asks for is not possible.
pub open spec fn calls_for_report(d: DriftView, a: Actions) -> bool {
    action_for(a, d.kind) == Action::Inform || (action_for(a, d.kind) == Action::Strip && d.kind
        == DriftKind::MissingRequired)
}

/// The fields that the drifts remove.
pub open spec fn removed_fields(drifts: Seq<DriftView>, a: Actions) -> Set<Seq<char>> {
    Set::new(
        |f: Seq<char>|
            exists|i: int|
                0 <= i < drifts.len() && (#[trigger] drifts[i]).field == f && calls_for_removal(
                    drifts[i],
                    a,
                ),
    )
}

/// A drift as it stands in the summary.
pub open spec fn token_of(d: DriftView) -> Seq<char> {
    seq![marker_of(d.kind)] + d.field
}

/// The summary's tokens: the drifts that are not off, each once, in the order
/// of their first occurrence.
pub open spec fn tokens_of(drifts: Seq<DriftView>, a: Actions) -> Seq<Seq<char>>
    decreases drifts.len(),
{
    if drifts.len() == 0 {
        seq![]
    } else {
        let done = tokens_of(drifts.drop_last(), a);
        let token = token_of(drifts.last());
        if action_for(a, drifts.last().kind) == Action::Off || done.contains(token) {
            done
        } else {
            done.push(token)
        }
    }
}

/// A drift as it stands in the log.
pub open spec fn log_line(d: DriftView) -> Seq<char> {
    kind_name(d.kind).push(':') + d.field
}

/// The log lines: one for each drift whose action is to log.
pub open spec fn log_lines(drifts: Seq<DriftView>, a: Actions) -> Seq<Seq<char>>
    decreases drifts.len(),
{
    if drifts.len() == 0 {
        seq![]
    } else {
        let done = log_lines(drifts.drop_last(), a);
        if action_for(a, drifts.last().kind) == Action::Log {
            done.push(log_line(drifts.last()))
        } else {
            done
        }
    }
}

/// The decision on the drifts of a response.
pub open spec fn decision_of(drifts: Seq<DriftView>, a: Actions) -> DecisionView {
    DecisionView {
        reject: calls_for(drifts, a, Action::Reject),
        strip: removed_fields(drifts, a),
        inform: exists|i: int| 0 <= i < drifts.len() && calls_for_report(#[trigger] drifts[i], a),
        summary: joined(tokens_of(drifts, a), ','),
        logged: log_lines(drifts, a),
    }
}

/// One more drift removes its field or nothing.
proof fn removed_by_one_more(drifts: Seq<DriftView>, d: DriftView, a: Actions)
    ensures
        removed_fields(drifts.push(d), a) == if calls_for_removal(d, a) {
            removed_fields(drifts, a).insert(d.field)
        } else {
            removed_fields(drifts, a)
        },
{
    let more = drifts.push(d);
    assert forall|f: Seq<char>| removed_fields(drifts, a).contains(f) implies removed_fields(
        more,
        a,
    ).contains(f) by {
        let i = choose|i: int|
            0 <= i < drifts.len() && (#[trigger] drifts[i]).field == f && calls_for_removal(
                drifts[i],
                a,
            );
        assert(more[i] == drifts[i]);
    }
    assert forall|f: Seq<char>| removed_fields(more, a).contains(f) && !(f == d.field
        && calls_for_removal(d, a)) implies removed_fields(drifts, a).contains(f) by {
        let i = choose|i: int|
            0 <= i < more.len() && (#[trigger] more[i]).field == f && calls_for_removal(more[i], a);
        assert(more[i] == drifts[i]);
    }
    assert(more[drifts.len() as int] == d);
    if calls_for_removal(d, a) {
        assert(removed_fields(more, a) =~= removed_fields(drifts, a).insert(d.field));
    } else {
        assert(removed_fields(more, a) =~= removed_fields(drifts, a));
    }
}

/// Turn drifts into a decision. Precedence: any reject blocks the whole
/// response; otherwise the marked fields are stripped; inform and log are
/// additive.
pub fn decide(drifts: &[Drift], actions: &Actions) -> (r: Decision)
    ensures
        r@ == decision_of(drifts_view(drifts@), *actions),
{
    let ghost all = drifts_view(drifts@);
    let ghost a = *actions;
    let mut reject: bool = false;
    let mut strip = FieldSet::new();
    let mut inform: bool = false;
    let mut tokens: Vec<String> = Vec::new();
    let mut logged: Vec<String> = Vec::new();
    let mut i: usize = 0;
    assert(removed_fields(all.take(0), a) =~= Set::<Seq<char>>::empty());
    assert(texts(tokens@) =~= tokens_of(all.take(0), a));
    assert(texts(logged@) =~= log_lines(all.take(0), a));
    while i < drifts.len()
        invariant
            i <= drifts@.len(),
            all == drifts_view(drifts@),
            a == *actions,
            reject == calls_for(all.take(i as int), a, Action::Reject),
            strip@ == removed_fields(all.take(i as int), a),
            inform == (exists|j: int|
                0 <= j < all.take(i as int).len() && calls_for_report(
                    #[trigger] all.take(i as int)[j],
                    a,
                )),
            texts(tokens@) == tokens_of(all.take(i as int), a),
            texts(logged@) == log_lines(all.take(i as int), a),
        decreases drifts@.len() - i,
    {
        let ghost done = all.take(i as int);
        let ghost more = all.take(i + 1);
        let d = &drifts[i];
        let act = actions.for_kind(d.kind);
        proof {
            assert(more =~= done.push(d@));
            assert(more.drop_last() =~= done);
            assert(more.last() == d@);
            removed_by_one_more(done, d@, a);
            assert forall|act: Action| calls_for(more, a, act) == (calls_for(done, a, act)
                || action_for(a, d.kind) == act) by {
                if calls_for(done, a, act) {
                    let j = choose|j: int|
                        0 <= j < done.len() && action_for(a, (#[trigger] done[j]).kind) == act;
                    assert(more[j] == done[j]);
                }
                assert(more[done.len() as int] == d@);
                if calls_for(more, a, act) {
                    let j = choose|j: int|
                        0 <= j < more.len() && action_for(a, (#[trigger] more[j]).kind) == act;
                    if j < done.len() {
                        assert(done[j] == more[j]);
                    }
                }
            }
            assert((exists|j: int| 0 <= j < more.len() && calls_for_report(#[trigger] more[j], a))
                == (inform || calls_for_report(d@, a))) by {
                if inform {
                    let j = choose|j: int|
                        0 <= j < done.len() && calls_for_report(#[trigger] done[j], a);
                    assert(more[j] == done[j]);
                }
                assert(more[done.len() as int] == d@);
                if exists|j: int| 0 <= j < more.len() && calls_for_report(#[trigger] more[j], a) {
                    let j = choose|j: int|
                        0 <= j < more.len() && calls_for_report(#[trigger] more[j], a);
                    if j < done.len() {
                        assert(done[j] == more[j]);
                    }
                }
            }
        }
        if act != Action::Off {
            let mut token = String::new();
            token.push(d.kind.marker());
            token.append(d.field.as_str());
            assert(token@ =~= token_of(d@));
            if !has_text(&tokens, &token) {
                let ghost held = texts(tokens@);
                tokens.push(token);
                assert(texts(tokens@) =~= held.push(token_of(d@)));
            }
            match act {
                Action::Reject => {
                    reject = true;
                },
                Action::Strip => {
                    if d.kind == DriftKind::MissingRequired {
                        inform = true;
                    } else {
                        strip.insert(d.field.clone());
                    }
                },
                Action::Inform => {
                    inform = true;
                },
                Action::Log => {
                    let mut line: String = d.kind.name().to_owned();
                    line.push(':');
                    line.append(d.field.as_str());
                    let ghost held = texts(logged@);
                    logged.push(line);
                    assert(texts(logged@) =~= held.push(log_line(d@)));
                },
                Action::Off => {},
            }
        }
        i = i + 1;
    }
    assert(all.take(i as int) =~= all);
    let summary = join(&tokens, ',');
    Decision { reject, strip, inform, summary, logged }
}

// ---- stripping ----

/// The record holds one of the names.
pub open spec fn holds_any(record: Entries, names: Set<Seq<char>>) -> bool {
    exists|k: Seq<char>| names.contains(k) && #[trigger] has_key(record, k)
}

/// Stripping one more name.
proof fn stripped_twice(e: Entries, names: Set<Seq<char>>, k: Seq<char>)
    ensures
        stripped(stripped(e, names), set![k]) == stripped(e, names.insert(k)),
    decreases e.len(),
{
    reveal(Seq::filter);
    if e.len() > 0 {
        stripped_twice(e.drop_last(), names, k);
        let keep = |p: (Seq<char>, JsonView)| !names.contains(p.0);
        let head = stripped(e.drop_last(), names);
        if keep(e.last()) {
            assert(stripped(e, names) == head.push(e.last()));
            assert(head.push(e.last()).drop_last() =~= head);
        }
    }
}

/// A text at the end of a list is one more text of the list.
proof fn pushed_set(s: Seq<Seq<char>>, k: Seq<char>)
    ensures
        s.push(k).to_set() == s.to_set().insert(k),
{
    assert forall|q: Seq<char>| s.to_set().insert(k).contains(q) implies s.push(
        k,
    ).to_set().contains(q) by {
        if q == k {
            assert(s.push(k)[s.len() as int] == q);
        } else {
            let i = choose|i: int| 0 <= i < s.len() && s[i] == q;
            assert(s.push(k)[i] == q);
        }
    }
    assert(s.push(k).to_set() =~= s.to_set().insert(k));
}

/// Remove the stripped fields from a record in place. Returns whether it
/// changed.
pub fn apply_strip(record: &mut Record, strip: &FieldSet) -> (r: bool)
    ensures
        final(record)@ == stripped(old(record)@, strip@),
        r == holds_any(old(record)@, strip@),
{
    let ghost e = record@;
    record.ordered();
    let names = strip.names();
    let ghost all = texts(names@);
    let mut changed: bool = false;
    let mut i: usize = 0;
    proof {
        assert(all.take(0).to_set() =~= Set::<Seq<char>>::empty());
        stripped_nothing(e, Set::<Seq<char>>::empty());
    }
    while i < names.len()
        invariant
            i <= names@.len(),
            all == texts(names@),
            ascending(e),
            record@ == stripped(e, all.take(i as int).to_set()),
            changed == holds_any(e, all.take(i as int).to_set()),
        decreases names@.len() - i,
    {
        let ghost done = all.take(i as int).to_set();
        let ghost k = all[i as int];
        match record.remove(names[i].as_str()) {
            Some(_) => {
                changed = true;
            },
            None => {},
        }
        i = i + 1;
        proof {
            stripped_twice(e, done, k);
            stripped_law(e, done);
            assert(all.take(i as int) =~= all.take(i - 1).push(k));
            pushed_set(all.take(i - 1), k);
            assert(has_key(stripped(e, done), k) == (has_key(e, k) && !done.contains(k)));
            if has_key(e, k) {
                assert(done.insert(k).contains(k));
                assert(holds_any(e, done.insert(k)));
            }
            if holds_any(e, done) {
                let q = choose|q: Seq<char>| done.contains(q) && #[trigger] has_key(e, q);
                assert(done.insert(k).contains(q));
                assert(holds_any(e, done.insert(k)));
            }
        }
    }
    assert(all.take(i as int) =~= all);
    changed
}

} // verus!
