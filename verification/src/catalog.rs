//! Catalog-driven contracts.
//!
//! The guard signs in to the catalog (Login, then JWT), resolves the schema
//! asset, lists its columns and the Business Terms linked to them, and builds
//! the contract: one field per column, required by the term's `isCDE`,
//! sensitive by the term's Security Level or, where it has none, by a marker in
//! its description.

use crate::conformance::{fields_view, ContractField, FieldView};
use crate::json::{list_view, member, text_member, Json, JsonView};
use crate::text::{
    contains_text, copy_optional, has_text, lowercase, occurs, optional_text, pieces, split, texts,
    to_lowercase, trim, trimmed,
};
use vstd::prelude::*;

verus! {

// ---- what the catalog says ----

/// A column's link to a Business Term.
#[derive(Debug, PartialEq)]
pub struct Link {
    pub column: String,
    pub term: String,
}

/// What a link says.
pub struct LinkView {
    pub column: Seq<char>,
    pub term: Seq<char>,
}

impl View for Link {
    type V = LinkView;

    open spec fn view(&self) -> LinkView {
        LinkView { column: self.column@, term: self.term@ }
    }
}

/// What links say.
pub open spec fn links_view(links: Seq<Link>) -> Seq<LinkView> {
    links.map_values(|l: Link| l@)
}

/// A Business Term.
#[derive(Debug, PartialEq)]
pub struct Term {
    pub id: String,
    pub name: Option<String>,
    pub description: String,
    /// The Security Level classification; empty where none is set.
    pub level: String,
    pub is_cde: bool,
}

/// What a Business Term says.
pub struct TermView {
    pub id: Seq<char>,
    pub name: Option<Seq<char>>,
    pub description: Seq<char>,
    pub level: Seq<char>,
    pub is_cde: bool,
}

impl View for Term {
    type V = TermView;

    open spec fn view(&self) -> TermView {
        TermView {
            id: self.id@,
            name: optional_text(self.name),
            description: self.description@,
            level: self.level@,
            is_cde: self.is_cde,
        }
    }
}

/// What Business Terms say.
pub open spec fn terms_view(terms: Seq<Term>) -> Seq<TermView> {
    terms.map_values(|t: Term| t@)
}

/// A text of a search hit, or the empty text.
pub open spec fn text_or_empty(doc: JsonView, key: Seq<char>) -> Seq<char> {
    match text_member(doc, key) {
        Some(s) => s,
        None => Seq::empty(),
    }
}

/// The text under a key.
pub fn s(doc: &Json, key: &str) -> (r: Option<String>)
    ensures
        optional_text(r) == text_member(doc@, key@),
{
    match doc.get_text(key) {
        Some(t) => Some(t.clone()),
        None => None,
    }
}

/// A text of a search hit, or the empty text.
fn s_or_empty(doc: &Json, key: &str) -> (r: String)
    ensures
        r@ == text_or_empty(doc@, key@),
{
    match doc.get_text(key) {
        Some(t) => t.clone(),
        None => String::new(),
    }
}

/// The links among search hits: those with a column and a term.
pub open spec fn links_of(docs: Seq<JsonView>) -> Seq<LinkView>
    decreases docs.len(),
{
    if docs.len() == 0 {
        seq![]
    } else {
        let done = links_of(docs.drop_last());
        match (
            text_member(docs.last(), "core.sourceIdentity"@),
            text_member(docs.last(), "core.targetIdentity"@),
        ) {
            (Some(column), Some(term)) => done.push(LinkView { column, term }),
            _ => done,
        }
    }
}

/// The links among search hits.
pub fn read_links(docs: &Vec<Json>) -> (r: Vec<Link>)
    ensures
        links_view(r@) == links_of(list_view(docs@)),
{
    let ghost all = list_view(docs@);
    let mut out: Vec<Link> = Vec::new();
    let mut i: usize = 0;
    assert(links_view(out@) =~= links_of(all.take(0)));
    while i < docs.len()
        invariant
            i <= docs@.len(),
            all == list_view(docs@),
            links_view(out@) == links_of(all.take(i as int)),
        decreases docs@.len() - i,
    {
        let ghost held = links_view(out@);
        assert(all.take(i + 1).drop_last() =~= all.take(i as int));
        assert(all.take(i + 1).last() == docs@[i as int]@);
        match (s(&docs[i], "core.sourceIdentity"), s(&docs[i], "core.targetIdentity")) {
            (Some(column), Some(term)) => {
                let link = Link { column, term };
                let ghost said = link@;
                out.push(link);
                assert(links_view(out@) =~= held.push(said));
            },
            _ => {},
        }
        i = i + 1;
    }
    assert(all.take(i as int) =~= all);
    out
}

/// The terms that links lead to, each once, in the order of their first
/// occurrence.
pub open spec fn linked_terms(links: Seq<LinkView>) -> Seq<Seq<char>>
    decreases links.len(),
{
    if links.len() == 0 {
        seq![]
    } else {
        let done = linked_terms(links.drop_last());
        if done.contains(links.last().term) {
            done
        } else {
            done.push(links.last().term)
        }
    }
}

/// The terms that links lead to.
pub fn term_ids(links: &Vec<Link>) -> (r: Vec<String>)
    ensures
        texts(r@) == linked_terms(links_view(links@)),
{
    let ghost all = links_view(links@);
    let mut out: Vec<String> = Vec::new();
    let mut i: usize = 0;
    assert(texts(out@) =~= linked_terms(all.take(0)));
    while i < links.len()
        invariant
            i <= links@.len(),
            all == links_view(links@),
            texts(out@) == linked_terms(all.take(i as int)),
        decreases links@.len() - i,
    {
        let ghost held = texts(out@);
        assert(all.take(i + 1).drop_last() =~= all.take(i as int));
        assert(all.take(i + 1).last() == links@[i as int]@);
        if !has_text(&out, &links[i].term) {
            out.push(links[i].term.clone());
            assert(texts(out@) =~= held.push(links@[i as int].term@));
        }
        i = i + 1;
    }
    assert(all.take(i as int) =~= all);
    out
}

/// The identities of search hits, of those that have one.
pub open spec fn identities_of(docs: Seq<JsonView>) -> Seq<Seq<char>>
    decreases docs.len(),
{
    if docs.len() == 0 {
        seq![]
    } else {
        let done = identities_of(docs.drop_last());
        match text_member(docs.last(), "core.identity"@) {
            Some(id) => done.push(id),
            None => done,
        }
    }
}

/// The identities of search hits.
pub fn identities(docs: &Vec<Json>) -> (r: Vec<String>)
    ensures
        texts(r@) == identities_of(list_view(docs@)),
{
    let ghost all = list_view(docs@);
    let mut out: Vec<String> = Vec::new();
    let mut i: usize = 0;
    assert(texts(out@) =~= identities_of(all.take(0)));
    while i < docs.len()
        invariant
            i <= docs@.len(),
            all == list_view(docs@),
            texts(out@) == identities_of(all.take(i as int)),
        decreases docs@.len() - i,
    {
        let ghost held = texts(out@);
        assert(all.take(i + 1).drop_last() =~= all.take(i as int));
        assert(all.take(i + 1).last() == docs@[i as int]@);
        match s(&docs[i], "core.identity") {
            Some(id) => {
                let ghost said = id@;
                out.push(id);
                assert(texts(out@) =~= held.push(said));
            },
            None => {},
        }
        i = i + 1;
    }
    assert(all.take(i as int) =~= all);
    out
}

/// The Business Term of a search hit that has an identity.
pub open spec fn term_of(doc: JsonView) -> Option<TermView> {
    match text_member(doc, "core.identity"@) {
        Some(id) => Some(
            TermView {
                id,
                name: text_member(doc, "core.name"@),
                description: text_or_empty(doc, "core.description"@),
                level: text_or_empty(
                    doc,
                    "com.infa.ccgf.models.governance.securityClassification"@,
                ),
                is_cde: member(doc, "com.infa.ccgf.models.governance.isCDE"@) == Some(
                    JsonView::Bool(true),
                ),
            },
        ),
        None => None,
    }
}

/// The Business Terms among search hits.
pub open spec fn terms_of(docs: Seq<JsonView>) -> Seq<TermView>
    decreases docs.len(),
{
    if docs.len() == 0 {
        seq![]
    } else {
        let done = terms_of(docs.drop_last());
        match term_of(docs.last()) {
            Some(t) => done.push(t),
            None => done,
        }
    }
}

/// The Business Terms among search hits.
pub fn read_terms(docs: &Vec<Json>) -> (r: Vec<Term>)
    ensures
        terms_view(r@) == terms_of(list_view(docs@)),
{
    let ghost all = list_view(docs@);
    let mut out: Vec<Term> = Vec::new();
    let mut i: usize = 0;
    assert(terms_view(out@) =~= terms_of(all.take(0)));
    while i < docs.len()
        invariant
            i <= docs@.len(),
            all == list_view(docs@),
            terms_view(out@) == terms_of(all.take(i as int)),
        decreases docs@.len() - i,
    {
        let ghost held = terms_view(out@);
        assert(all.take(i + 1).drop_last() =~= all.take(i as int));
        assert(all.take(i + 1).last() == docs@[i as int]@);
        let doc = &docs[i];
        match s(doc, "core.identity") {
            Some(id) => {
                let is_cde: bool = match doc.get("com.infa.ccgf.models.governance.isCDE") {
                    Some(Json::Bool(b)) => *b,
                    _ => false,
                };
                let term = Term {
                    id,
                    name: s(doc, "core.name"),
                    description: s_or_empty(doc, "core.description"),
                    level: s_or_empty(
                        doc,
                        "com.infa.ccgf.models.governance.securityClassification",
                    ),
                    is_cde,
                };
                let ghost said = term@;
                assert(term_of(doc@) == Some(said));
                out.push(term);
                assert(terms_view(out@) =~= held.push(said));
            },
            None => {},
        }
        i = i + 1;
    }
    assert(all.take(i as int) =~= all);
    out
}

// ---- building the contract ----

/// The Security Levels that make a field sensitive: the pieces of the setting
/// between commas, trimmed and in lower case, without blanks.
pub open spec fn levels_of(setting: Seq<char>) -> Seq<Seq<char>> {
    lower_levels(pieces(setting, ','))
}

/// The parts trimmed and in lower case, without blanks.
pub open spec fn lower_levels(parts: Seq<Seq<char>>) -> Seq<Seq<char>>
    decreases parts.len(),
{
    if parts.len() == 0 {
        seq![]
    } else {
        let done = lower_levels(parts.drop_last());
        let level = lowercase(trimmed(parts.last()));
        if level.len() == 0 {
            done
        } else {
            done.push(level)
        }
    }
}

/// The Security Levels that make a field sensitive.
pub fn sensitive_levels(setting: &str) -> (r: Vec<String>)
    ensures
        texts(r@) == levels_of(setting@),
{
    let parts = split(setting, ',');
    let ghost all = texts(parts@);
    let mut out: Vec<String> = Vec::new();
    let mut i: usize = 0;
    assert(texts(out@) =~= lower_levels(all.take(0)));
    while i < parts.len()
        invariant
            i <= parts@.len(),
            all == texts(parts@),
            texts(out@) == lower_levels(all.take(i as int)),
        decreases parts@.len() - i,
    {
        let ghost held = texts(out@);
        assert(all.take(i + 1).drop_last() =~= all.take(i as int));
        assert(all.take(i + 1).last() == parts@[i as int]@);
        let level = to_lowercase(trim(parts[i].as_str()).as_str());
        if !level.as_str().is_empty() {
            let ghost said = level@;
            out.push(level);
            assert(texts(out@) =~= held.push(said));
        }
        i = i + 1;
    }
    assert(all.take(i as int) =~= all);
    out
}

/// A field is sensitive by the Security Level of its term; where no level is
/// set, by the marker in the term's description. All texts in lower case.
pub open spec fn level_is_sensitive(
    level: Seq<char>,
    description: Seq<char>,
    marker: Seq<char>,
    levels: Seq<Seq<char>>,
) -> bool {
    if level.len() == 0 {
        occurs(description, marker)
    } else {
        levels.contains(level)
    }
}

/// Whether a level, or where it is empty a description, makes a field
/// sensitive. All texts in lower case.
pub fn sensitive_by(
    level: &String,
    description: &String,
    marker: &String,
    levels: &Vec<String>,
) -> (r: bool)
    ensures
        r == level_is_sensitive(level@, description@, marker@, texts(levels@)),
{
    if level.as_str().is_empty() {
        contains_text(description.as_str(), marker.as_str())
    } else {
        has_text(levels, level)
    }
}

/// A Business Term makes its field sensitive.
pub open spec fn term_is_sensitive(
    t: TermView,
    marker: Seq<char>,
    levels: Seq<Seq<char>>,
) -> bool {
    level_is_sensitive(lowercase(trimmed(t.level)), lowercase(t.description), marker, levels)
}

/// Whether a Business Term makes its field sensitive.
pub fn sensitive_term(t: &Term, marker: &String, levels: &Vec<String>) -> (r: bool)
    ensures
        r == term_is_sensitive(t@, marker@, texts(levels@)),
{
    let level = to_lowercase(trim(t.level.as_str()).as_str());
    let description = to_lowercase(t.description.as_str());
    sensitive_by(&level, &description, marker, levels)
}

/// The term that a column is linked to: that of its first link.
pub open spec fn linked_term(links: Seq<LinkView>, column: Seq<char>) -> Option<Seq<char>>
    decreases links.len(),
{
    if links.len() == 0 {
        None
    } else if links[0].column == column {
        Some(links[0].term)
    } else {
        linked_term(links.drop_first(), column)
    }
}

/// The term of an identity: the last one of that identity.
pub open spec fn term_with_id(terms: Seq<TermView>, id: Seq<char>) -> Option<TermView>
    decreases terms.len(),
{
    if terms.len() == 0 {
        None
    } else if terms.last().id == id {
        Some(terms.last())
    } else {
        term_with_id(terms.drop_last(), id)
    }
}

/// The Business Term that governs a column.
pub open spec fn governing_term(
    links: Seq<LinkView>,
    terms: Seq<TermView>,
    column: Seq<char>,
) -> Option<TermView> {
    match linked_term(links, column) {
        Some(id) => term_with_id(terms, id),
        None => None,
    }
}

/// The governed field of a column that has an identity and a name.
pub open spec fn field_of(
    column: JsonView,
    links: Seq<LinkView>,
    terms: Seq<TermView>,
    marker: Seq<char>,
    levels: Seq<Seq<char>>,
) -> Option<FieldView> {
    match (text_member(column, "core.identity"@), text_member(column, "core.name"@)) {
        (Some(id), Some(name)) => {
            let ftype = match text_member(column, "core.dataType"@) {
                Some(t) => Some(t),
                None => text_member(column, "core.inferredDataType"@),
            };
            match governing_term(links, terms, id) {
                Some(t) => Some(
                    FieldView {
                        name,
                        ftype,
                        required: t.is_cde,
                        sensitive: term_is_sensitive(t, marker, levels),
                        term: t.name,
                    },
                ),
                None => Some(
                    FieldView { name, ftype, required: false, sensitive: false, term: None },
                ),
            }
        },
        _ => None,
    }
}

/// The contract of the columns.
pub open spec fn contract_of(
    columns: Seq<JsonView>,
    links: Seq<LinkView>,
    terms: Seq<TermView>,
    marker: Seq<char>,
    levels: Seq<Seq<char>>,
) -> Seq<FieldView>
    decreases columns.len(),
{
    if columns.len() == 0 {
        seq![]
    } else {
        let done = contract_of(columns.drop_last(), links, terms, marker, levels);
        match field_of(columns.last(), links, terms, marker, levels) {
            Some(f) => done.push(f),
            None => done,
        }
    }
}

/// The Business Term that governs a column.
fn find_term<'a>(links: &Vec<Link>, terms: &'a Vec<Term>, column: &String) -> (r: Option<&'a Term>)
    ensures
        match r {
            Some(t) => governing_term(links_view(links@), terms_view(terms@), column@) == Some(t@),
            None => governing_term(links_view(links@), terms_view(terms@), column@) is None,
        },
{
    let ghost ls = links_view(links@);
    let ghost ts = terms_view(terms@);
    let mut i: usize = 0;
    assert(ls.skip(0) =~= ls);
    while i < links.len() && links[i].column != *column
        invariant
            i <= links@.len(),
            ls == links_view(links@),
            linked_term(ls, column@) == linked_term(ls.skip(i as int), column@),
        decreases links@.len() - i,
    {
        assert(ls.skip(i as int)[0] == links@[i as int]@);
        assert(ls.skip(i as int).drop_first() =~= ls.skip(i + 1));
        i = i + 1;
    }
    if i == links.len() {
        return None;
    }
    assert(ls.skip(i as int)[0] == links@[i as int]@);
    let id = &links[i].term;
    let mut k: usize = terms.len();
    assert(ts.take(k as int) =~= ts);
    while k > 0
        invariant
            k <= terms@.len(),
            ts == terms_view(terms@),
            governing_term(ls, ts, column@) == term_with_id(ts.take(k as int), id@),
            ls == links_view(links@),
        decreases k,
    {
        assert(ts.take(k as int).last() == terms@[k - 1]@);
        assert(ts.take(k as int).drop_last() =~= ts.take(k - 1));
        if terms[k - 1].id == *id {
            return Some(&terms[k - 1]);
        }
        k = k - 1;
    }
    None
}

/// The contract of the columns: one field for each column with an identity and
/// a name. `marker` and `levels` in lower case.
pub fn build_contract(
    columns: &Vec<Json>,
    links: &Vec<Link>,
    terms: &Vec<Term>,
    marker: &String,
    levels: &Vec<String>,
) -> (r: Vec<ContractField>)
    ensures
        fields_view(r@) == contract_of(
            list_view(columns@),
            links_view(links@),
            terms_view(terms@),
            marker@,
            texts(levels@),
        ),
{
    let ghost all = list_view(columns@);
    let ghost ls = links_view(links@);
    let ghost ts = terms_view(terms@);
    let ghost lv = texts(levels@);
    let mut out: Vec<ContractField> = Vec::new();
    let mut i: usize = 0;
    assert(fields_view(out@) =~= contract_of(all.take(0), ls, ts, marker@, lv));
    while i < columns.len()
        invariant
            i <= columns@.len(),
            all == list_view(columns@),
            ls == links_view(links@),
            ts == terms_view(terms@),
            lv == texts(levels@),
            fields_view(out@) == contract_of(all.take(i as int), ls, ts, marker@, lv),
        decreases columns@.len() - i,
    {
        let ghost held = fields_view(out@);
        assert(all.take(i + 1).drop_last() =~= all.take(i as int));
        assert(all.take(i + 1).last() == columns@[i as int]@);
        let c = &columns[i];
        match (s(c, "core.identity"), s(c, "core.name")) {
            (Some(id), Some(name)) => {
                let ftype: Option<String> = match s(c, "core.dataType") {
                    Some(t) => Some(t),
                    None => s(c, "core.inferredDataType"),
                };
                let field = match find_term(links, terms, &id) {
                    Some(t) => ContractField {
                        name,
                        ftype,
                        required: t.is_cde,
                        sensitive: sensitive_term(t, marker, levels),
                        term: copy_optional(&t.name),
                    },
                    None => ContractField {
                        name,
                        ftype,
                        required: false,
                        sensitive: false,
                        term: None,
                    },
                };
                let ghost said = field@;
                assert(field_of(c@, ls, ts, marker@, lv) == Some(said));
                out.push(field);
                assert(fields_view(out@) =~= held.push(said));
            },
            _ => {},
        }
        i = i + 1;
    }
    assert(all.take(i as int) =~= all);
    out
}

// ---- laws ----

/// A Security Level decides alone: where the term has one, its description says
/// nothing about sensitivity.
pub proof fn level_decides(
    t: TermView,
    description: Seq<char>,
    marker: Seq<char>,
    levels: Seq<Seq<char>>,
)
    requires
        lowercase(trimmed(t.level)).len() > 0,
    ensures
        term_is_sensitive(t, marker, levels) == levels.contains(lowercase(trimmed(t.level))),
        term_is_sensitive(TermView { description, ..t }, marker, levels) == term_is_sensitive(
            t,
            marker,
            levels,
        ),
{
}

/// Every column that has an identity and a name has its field in the contract.
pub proof fn columns_are_governed(
    columns: Seq<JsonView>,
    links: Seq<LinkView>,
    terms: Seq<TermView>,
    marker: Seq<char>,
    levels: Seq<Seq<char>>,
    i: int,
)
    requires
        0 <= i < columns.len(),
    ensures
        field_of(columns[i], links, terms, marker, levels) matches Some(f) ==> contract_of(
            columns,
            links,
            terms,
            marker,
            levels,
        ).contains(f),
    decreases columns.len(),
{
    let head = columns.drop_last();
    let done = contract_of(head, links, terms, marker, levels);
    let all = contract_of(columns, links, terms, marker, levels);
    match field_of(columns[i], links, terms, marker, levels) {
        Some(f) => {
            if i < head.len() {
                columns_are_governed(head, links, terms, marker, levels, i);
                let k = choose|k: int| 0 <= k < done.len() && done[k] == f;
                assert(all[k] == f);
            } else {
                assert(all[all.len() - 1] == f);
            }
        },
        None => {},
    }
}

/// Every field of the contract is that of a column.
pub proof fn fields_come_from_columns(
    columns: Seq<JsonView>,
    links: Seq<LinkView>,
    terms: Seq<TermView>,
    marker: Seq<char>,
    levels: Seq<Seq<char>>,
    k: int,
)
    requires
        0 <= k < contract_of(columns, links, terms, marker, levels).len(),
    ensures
        exists|i: int|
            0 <= i < columns.len() && field_of(#[trigger] columns[i], links, terms, marker, levels)
                == Some(contract_of(columns, links, terms, marker, levels)[k]),
    decreases columns.len(),
{
    let head = columns.drop_last();
    let done = contract_of(head, links, terms, marker, levels);
    let f = contract_of(columns, links, terms, marker, levels)[k];
    if k < done.len() {
        fields_come_from_columns(head, links, terms, marker, levels, k);
        let i = choose|i: int|
            0 <= i < head.len() && field_of(#[trigger] head[i], links, terms, marker, levels)
                == Some(done[k]);
        assert(columns[i] == head[i]);
    } else {
        let last = columns.len() - 1;
        assert(field_of(columns[last], links, terms, marker, levels) == Some(f));
    }
}

} // verus!
