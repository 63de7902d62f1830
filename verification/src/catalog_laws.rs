//! What a contract says of its catalog, and what the catalog is asked, said of the
//! documents themselves.

use crate::catalog::{
    contract_of, field_of, governing_term, identities_of, levels_of, linked_term, linked_terms,
    links_of, lower_levels, term_of, term_with_id, terms_of, LinkView, TermView,
};
use crate::conformance::FieldView;
use crate::json::{member, text_member, JsonView};
use crate::text::{lowercase, occurs, pieces, trimmed};
use vstd::prelude::*;

verus! {

// ---- documents ----

/// The term document at `t` governs the column with identity `id`: the first link
/// document that has this source, and a target, leads to it, and it is the last
/// term document with the target's identity.
pub open spec fn governs(
    links: Seq<JsonView>,
    terms: Seq<JsonView>,
    id: Seq<char>,
    l: int,
    target: Seq<char>,
    t: int,
) -> bool {
    &&& 0 <= l < links.len()
    &&& member(links[l], "core.sourceIdentity"@) == Some(JsonView::Text(id))
    &&& member(links[l], "core.targetIdentity"@) == Some(JsonView::Text(target))
    &&& forall|k: int|
        0 <= k < l && member(#[trigger] links[k], "core.sourceIdentity"@) == Some(
            JsonView::Text(id),
        ) ==> !(member(links[k], "core.targetIdentity"@) matches Some(JsonView::Text(_)))
    &&& 0 <= t < terms.len()
    &&& member(terms[t], "core.identity"@) == Some(JsonView::Text(target))
    &&& forall|u: int|
        t < u < terms.len() ==> member(#[trigger] terms[u], "core.identity"@) != Some(
            JsonView::Text(target),
        )
}

/// The term of the links is found among the first links or else among the rest.
proof fn linked_among_two(a: Seq<LinkView>, b: Seq<LinkView>, id: Seq<char>)
    ensures
        linked_term(a + b, id) == (if linked_term(a, id) is Some {
            linked_term(a, id)
        } else {
            linked_term(b, id)
        }),
    decreases a.len(),
{
    if a.len() == 0 {
        assert(a + b =~= b);
    } else {
        assert((a + b)[0] == a[0]);
        assert((a + b).drop_first() =~= a.drop_first() + b);
        linked_among_two(a.drop_first(), b, id);
    }
}

/// The link document that a column's term comes from.
proof fn link_of_a_column(docs: Seq<JsonView>, id: Seq<char>) -> (l: int)
    ensures
        match linked_term(links_of(docs), id) {
            Some(target) => 0 <= l < docs.len() && text_member(docs[l], "core.sourceIdentity"@)
                == Some(id) && text_member(docs[l], "core.targetIdentity"@) == Some(target)
                && forall|k: int|
                0 <= k < l && text_member(#[trigger] docs[k], "core.sourceIdentity"@) == Some(id)
                    ==> text_member(docs[k], "core.targetIdentity"@) is None,
            None => forall|k: int|
                0 <= k < docs.len() && text_member(#[trigger] docs[k], "core.sourceIdentity"@)
                    == Some(id) ==> text_member(docs[k], "core.targetIdentity"@) is None,
        },
    decreases docs.len(),
{
    if docs.len() == 0 {
        0
    } else {
        let head = docs.drop_last();
        let n = docs.len() - 1;
        let before = link_of_a_column(head, id);
        let done = links_of(head);
        assert forall|k: int| 0 <= k < head.len() implies head[k] == docs[k] by {}
        match (
            text_member(docs[n], "core.sourceIdentity"@),
            text_member(docs[n], "core.targetIdentity"@),
        ) {
            (Some(column), Some(term)) => {
                let one = seq![LinkView { column, term }];
                assert(done.push(LinkView { column, term }) =~= done + one);
                linked_among_two(done, one, id);
                assert(one.drop_first() =~= Seq::<LinkView>::empty());
                assert(linked_term(Seq::<LinkView>::empty(), id) is None);
                assert(linked_term(one, id) == (if column == id {
                    Some(term)
                } else {
                    None
                }));
            },
            _ => {},
        }
        if linked_term(done, id) is Some {
            before
        } else {
            n
        }
    }
}

/// The term document that an identity means.
proof fn term_of_an_identity(docs: Seq<JsonView>, id: Seq<char>) -> (t: int)
    ensures
        match term_with_id(terms_of(docs), id) {
            Some(term) => 0 <= t < docs.len() && text_member(docs[t], "core.identity"@) == Some(id)
                && term_of(docs[t]) == Some(term) && forall|u: int|
                t < u < docs.len() ==> text_member(#[trigger] docs[u], "core.identity"@) != Some(
                    id,
                ),
            None => forall|u: int|
                0 <= u < docs.len() ==> text_member(#[trigger] docs[u], "core.identity"@) != Some(
                    id,
                ),
        },
    decreases docs.len(),
{
    if docs.len() == 0 {
        0
    } else {
        let head = docs.drop_last();
        let n = docs.len() - 1;
        let before = term_of_an_identity(head, id);
        let done = terms_of(head);
        assert forall|k: int| 0 <= k < head.len() implies head[k] == docs[k] by {}
        match term_of(docs[n]) {
            Some(t) => {
                assert(done.push(t).drop_last() =~= done);
                assert(done.push(t).last() == t);
                if t.id == id {
                    n
                } else {
                    before
                }
            },
            None => before,
        }
    }
}

// ---- contracts ----

/// The columns that have an identity and a name, in order: `at` are their
/// positions, and each has one field in the contract.
proof fn fields_by_column(
    columns: Seq<JsonView>,
    links: Seq<LinkView>,
    terms: Seq<TermView>,
    marker: Seq<char>,
    levels: Seq<Seq<char>>,
) -> (at: Seq<int>)
    ensures
        contract_of(columns, links, terms, marker, levels).len() == at.len(),
        forall|k: int|
            0 <= k < at.len() ==> 0 <= #[trigger] at[k] < columns.len() && field_of(
                columns[at[k]],
                links,
                terms,
                marker,
                levels,
            ) == Some(contract_of(columns, links, terms, marker, levels)[k]),
        forall|k: int, l: int| 0 <= k < l < at.len() ==> #[trigger] at[k] < #[trigger] at[l],
        forall|i: int|
            0 <= i < columns.len() && field_of(#[trigger] columns[i], links, terms, marker, levels)
                is Some ==> at.contains(i),
    decreases columns.len(),
{
    if columns.len() == 0 {
        seq![]
    } else {
        let head = columns.drop_last();
        let n = columns.len() - 1;
        let before = fields_by_column(head, links, terms, marker, levels);
        let at = if field_of(columns[n], links, terms, marker, levels) is Some {
            before.push(n)
        } else {
            before
        };
        assert forall|k: int| 0 <= k < head.len() implies head[k] == columns[k] by {}
        assert forall|i: int| 0 <= i < columns.len() && field_of(
            #[trigger] columns[i],
            links,
            terms,
            marker,
            levels,
        ) is Some implies at.contains(i) by {
            if i < n {
                assert(head[i] == columns[i]);
                let k = choose|k: int| 0 <= k < before.len() && before[k] == i;
                assert(at[k] == i);
            } else {
                assert(at[before.len() as int] == n);
            }
        }
        assert forall|k: int| 0 <= k < at.len() implies 0 <= #[trigger] at[k] < columns.len()
            && field_of(columns[at[k]], links, terms, marker, levels) == Some(
            contract_of(columns, links, terms, marker, levels)[k],
        ) by {
            if k < before.len() {
                assert(at[k] == before[k]);
                assert(columns[at[k]] == head[before[k]]);
            }
        }
        at
    }
}

/// A contract has one field for every column document that has an identity and a
/// name, in the order of the columns; a field has its column's name, and the
/// column's data type or else its inferred data type.
pub proof fn one_field_per_column(
    columns: Seq<JsonView>,
    link_docs: Seq<JsonView>,
    term_docs: Seq<JsonView>,
    marker: Seq<char>,
    levels: Seq<Seq<char>>,
) -> (at: Seq<int>)
    ensures
        ({
            let contract = contract_of(
                columns,
                links_of(link_docs),
                terms_of(term_docs),
                marker,
                levels,
            );
            &&& contract.len() == at.len()
            &&& forall|k: int, l: int|
                0 <= k < l < at.len() ==> #[trigger] at[k] < #[trigger] at[l]
            &&& forall|i: int|
                0 <= i < columns.len() && (member(#[trigger] columns[i], "core.identity"@) matches Some(
                    JsonView::Text(_),
                )) && (member(columns[i], "core.name"@) matches Some(JsonView::Text(_)))
                    ==> at.contains(i)
            &&& forall|k: int|
                0 <= k < at.len() ==> 0 <= #[trigger] at[k] < columns.len() && (member(
                    columns[at[k]],
                    "core.identity"@,
                ) matches Some(JsonView::Text(_))) && member(columns[at[k]], "core.name"@) == Some(
                    JsonView::Text(contract[k].name),
                ) && contract[k].ftype == (match member(columns[at[k]], "core.dataType"@) {
                    Some(JsonView::Text(t)) => Some(t),
                    _ => match member(columns[at[k]], "core.inferredDataType"@) {
                        Some(JsonView::Text(t)) => Some(t),
                        _ => None,
                    },
                })
        }),
{
    let links = links_of(link_docs);
    let terms = terms_of(term_docs);
    let at = fields_by_column(columns, links, terms, marker, levels);
    assert forall|i: int|
        0 <= i < columns.len() && (member(#[trigger] columns[i], "core.identity"@) matches Some(
            JsonView::Text(_),
        )) && (member(columns[i], "core.name"@) matches Some(
            JsonView::Text(_),
        )) implies at.contains(i) by {
        assert(field_of(columns[i], links, terms, marker, levels) is Some);
    }
    at
}

/// The field of a column that a term document governs is required exactly where
/// that document has `isCDE` true, and by nothing else; it is sensitive by the
/// document's Security Level where that is not blank, else by the marker in its
/// description; and its term is the document's name. The field of a column that
/// none governs is neither required nor sensitive and has no term.
pub proof fn fields_follow_their_terms(
    columns: Seq<JsonView>,
    link_docs: Seq<JsonView>,
    term_docs: Seq<JsonView>,
    marker: Seq<char>,
    levels: Seq<Seq<char>>,
    i: int,
    id: Seq<char>,
    name: Seq<char>,
) -> (k: int)
    requires
        0 <= i < columns.len(),
        member(columns[i], "core.identity"@) == Some(JsonView::Text(id)),
        member(columns[i], "core.name"@) == Some(JsonView::Text(name)),
    ensures
        ({
            let contract = contract_of(
                columns,
                links_of(link_docs),
                terms_of(term_docs),
                marker,
                levels,
            );
            let f = contract[k];
            &&& 0 <= k < contract.len()
            &&& f.name == name
            &&& forall|l: int, target: Seq<char>, t: int| #[trigger]
                governs(link_docs, term_docs, id, l, target, t) ==> ({
                    let doc = term_docs[t];
                    let level = match member(
                        doc,
                        "com.infa.ccgf.models.governance.securityClassification"@,
                    ) {
                        Some(JsonView::Text(s)) => lowercase(trimmed(s)),
                        _ => lowercase(trimmed(Seq::<char>::empty())),
                    };
                    let description = match member(doc, "core.description"@) {
                        Some(JsonView::Text(s)) => lowercase(s),
                        _ => lowercase(Seq::<char>::empty()),
                    };
                    &&& f.required <==> member(doc, "com.infa.ccgf.models.governance.isCDE"@)
                        == Some(JsonView::Bool(true))
                    &&& level.len() > 0 ==> (f.sensitive <==> exists|n: int|
                        0 <= n < levels.len() && #[trigger] levels[n] == level)
                    &&& level.len() == 0 ==> (f.sensitive <==> occurs(description, marker))
                    &&& f.term == (match member(doc, "core.name"@) {
                        Some(JsonView::Text(s)) => Some(s),
                        _ => None,
                    })
                })
            &&& (forall|l: int, target: Seq<char>, t: int|
                !(#[trigger] governs(link_docs, term_docs, id, l, target, t))) ==> !f.required
                && !f.sensitive && f.term is None
        }),
{
    let links = links_of(link_docs);
    let terms = terms_of(term_docs);
    let at = fields_by_column(columns, links, terms, marker, levels);
    let contract = contract_of(columns, links, terms, marker, levels);
    assert(text_member(columns[i], "core.identity"@) == Some(id));
    assert(text_member(columns[i], "core.name"@) == Some(name));
    assert(field_of(columns[i], links, terms, marker, levels) is Some);
    assert(at.contains(i));
    let k = choose|k: int| 0 <= k < at.len() && at[k] == i;
    let f = contract[k];
    assert(field_of(columns[at[k]], links, terms, marker, levels) == Some(f));
    let l0 = link_of_a_column(link_docs, id);
    let found = linked_term(links, id);
    let target0 = found->0;
    let t0 = term_of_an_identity(term_docs, target0);
    assert forall|l: int, target: Seq<char>, t: int| #[trigger]
        governs(link_docs, term_docs, id, l, target, t) implies found == Some(target) && t == t0
        && governing_term(links, terms, id) == term_of(term_docs[t]) by {
        assert(text_member(link_docs[l], "core.sourceIdentity"@) == Some(id));
        assert(text_member(link_docs[l], "core.targetIdentity"@) == Some(target));
        assert(found is Some);
        if l0 < l {
            assert(text_member(link_docs[l0], "core.targetIdentity"@) == Some(target0));
            assert(member(link_docs[l0], "core.sourceIdentity"@) == Some(JsonView::Text(id)));
            assert(member(link_docs[l0], "core.targetIdentity"@) == Some(JsonView::Text(target0)));
        } else if l < l0 {
            assert(text_member(link_docs[l], "core.targetIdentity"@) is None);
        }
        assert(l == l0 && target == target0);
        assert(text_member(term_docs[t], "core.identity"@) == Some(target));
        assert(term_with_id(terms, target) is Some);
        if t < t0 {
            assert(member(term_docs[t0], "core.identity"@) == Some(JsonView::Text(target)));
        } else if t0 < t {
            assert(text_member(term_docs[t], "core.identity"@) != Some(target));
        }
    }
    if governing_term(links, terms, id) is Some {
        assert forall|u: int| t0 < u < term_docs.len() implies member(
            #[trigger] term_docs[u],
            "core.identity"@,
        ) != Some(JsonView::Text(target0)) by {
            assert(text_member(term_docs[u], "core.identity"@) != Some(target0));
        }
        assert forall|n: int| 0 <= n < l0 && member(
            #[trigger] link_docs[n],
            "core.sourceIdentity"@,
        ) == Some(JsonView::Text(id)) implies !(member(
            link_docs[n],
            "core.targetIdentity"@,
        ) matches Some(JsonView::Text(_))) by {
            assert(text_member(link_docs[n], "core.sourceIdentity"@) == Some(id));
            assert(text_member(link_docs[n], "core.targetIdentity"@) is None);
        }
        assert(governs(link_docs, term_docs, id, l0, target0, t0));
    }
    k
}

// ---- what the documents say ----

/// The identities of documents are those of the documents that have one, in
/// order.
pub proof fn identities_in_order(docs: Seq<JsonView>) -> (at: Seq<int>)
    ensures
        identities_of(docs).len() == at.len(),
        forall|k: int|
            0 <= k < at.len() ==> 0 <= #[trigger] at[k] < docs.len() && member(
                docs[at[k]],
                "core.identity"@,
            ) == Some(JsonView::Text(identities_of(docs)[k])),
        forall|k: int, l: int| 0 <= k < l < at.len() ==> #[trigger] at[k] < #[trigger] at[l],
        forall|i: int|
            0 <= i < docs.len() && (member(#[trigger] docs[i], "core.identity"@) matches Some(
                JsonView::Text(_),
            )) ==> at.contains(i),
    decreases docs.len(),
{
    if docs.len() == 0 {
        seq![]
    } else {
        let head = docs.drop_last();
        let n = docs.len() - 1;
        let before = identities_in_order(head);
        let at = if text_member(docs[n], "core.identity"@) is Some {
            before.push(n)
        } else {
            before
        };
        assert forall|k: int| 0 <= k < head.len() implies head[k] == docs[k] by {}
        assert forall|i: int|
            0 <= i < docs.len() && (member(#[trigger] docs[i], "core.identity"@) matches Some(
                JsonView::Text(_),
            )) implies at.contains(i) by {
            if i < n {
                assert(head[i] == docs[i]);
                let k = choose|k: int| 0 <= k < before.len() && before[k] == i;
                assert(at[k] == i);
            } else {
                assert(at[before.len() as int] == n);
            }
        }
        assert forall|k: int| 0 <= k < at.len() implies 0 <= #[trigger] at[k] < docs.len() && member(
            docs[at[k]],
            "core.identity"@,
        ) == Some(JsonView::Text(identities_of(docs)[k])) by {
            if k < before.len() {
                assert(at[k] == before[k]);
                assert(docs[at[k]] == head[before[k]]);
            }
        }
        at
    }
}

/// The links are those of the link documents that have a source and a target, in
/// order.
pub proof fn links_in_order(docs: Seq<JsonView>) -> (at: Seq<int>)
    ensures
        links_of(docs).len() == at.len(),
        forall|k: int|
            0 <= k < at.len() ==> 0 <= #[trigger] at[k] < docs.len() && member(
                docs[at[k]],
                "core.sourceIdentity"@,
            ) == Some(JsonView::Text(links_of(docs)[k].column)) && member(
                docs[at[k]],
                "core.targetIdentity"@,
            ) == Some(JsonView::Text(links_of(docs)[k].term)),
        forall|k: int, l: int| 0 <= k < l < at.len() ==> #[trigger] at[k] < #[trigger] at[l],
        forall|i: int|
            0 <= i < docs.len() && (member(#[trigger] docs[i], "core.sourceIdentity"@) matches Some(
                JsonView::Text(_),
            )) && (member(docs[i], "core.targetIdentity"@) matches Some(JsonView::Text(_)))
                ==> at.contains(i),
    decreases docs.len(),
{
    if docs.len() == 0 {
        seq![]
    } else {
        let head = docs.drop_last();
        let n = docs.len() - 1;
        let before = links_in_order(head);
        let at = if text_member(docs[n], "core.sourceIdentity"@) is Some && text_member(
            docs[n],
            "core.targetIdentity"@,
        ) is Some {
            before.push(n)
        } else {
            before
        };
        assert forall|k: int| 0 <= k < head.len() implies head[k] == docs[k] by {}
        assert forall|i: int|
            0 <= i < docs.len() && (member(#[trigger] docs[i], "core.sourceIdentity"@) matches Some(
                JsonView::Text(_),
            )) && (member(docs[i], "core.targetIdentity"@) matches Some(
                JsonView::Text(_),
            )) implies at.contains(i) by {
            if i < n {
                assert(head[i] == docs[i]);
                let k = choose|k: int| 0 <= k < before.len() && before[k] == i;
                assert(at[k] == i);
            } else {
                assert(at[before.len() as int] == n);
            }
        }
        assert forall|k: int| 0 <= k < at.len() implies 0 <= #[trigger] at[k] < docs.len() && member(
            docs[at[k]],
            "core.sourceIdentity"@,
        ) == Some(JsonView::Text(links_of(docs)[k].column)) && member(
            docs[at[k]],
            "core.targetIdentity"@,
        ) == Some(JsonView::Text(links_of(docs)[k].term)) by {
            if k < before.len() {
                assert(at[k] == before[k]);
                assert(docs[at[k]] == head[before[k]]);
            }
        }
        at
    }
}

/// The terms that are asked for are the targets of the links, each once.
pub proof fn linked_terms_are_the_targets(links: Seq<LinkView>)
    ensures
        forall|t: Seq<char>| #[trigger]
            linked_terms(links).contains(t) <==> exists|i: int|
                0 <= i < links.len() && (#[trigger] links[i]).term == t,
        linked_terms(links).no_duplicates(),
    decreases links.len(),
{
    if links.len() > 0 {
        let head = links.drop_last();
        linked_terms_are_the_targets(head);
        let done = linked_terms(head);
        let all = linked_terms(links);
        let last = links.last();
        assert(links[links.len() - 1] == last);
        assert forall|t: Seq<char>| #[trigger] all.contains(t) <==> exists|i: int|
            0 <= i < links.len() && (#[trigger] links[i]).term == t by {
            if all.contains(t) && t != last.term {
                let k = choose|k: int| 0 <= k < all.len() && all[k] == t;
                assert(done[k] == t);
                assert(done.contains(t));
                let i = choose|i: int| 0 <= i < head.len() && (#[trigger] head[i]).term == t;
                assert(links[i].term == t);
            }
            if exists|i: int| 0 <= i < links.len() && (#[trigger] links[i]).term == t {
                let i = choose|i: int| 0 <= i < links.len() && (#[trigger] links[i]).term == t;
                if i < head.len() {
                    assert(head[i].term == t);
                    assert(done.contains(t));
                    let k = choose|k: int| 0 <= k < done.len() && done[k] == t;
                    assert(all[k] == t);
                } else if !done.contains(t) {
                    assert(all[done.len() as int] == t);
                } else {
                    let k = choose|k: int| 0 <= k < done.len() && done[k] == t;
                    assert(all[k] == t);
                }
            }
        }
    }
}

/// The sensitive levels are the parts of the setting between commas, trimmed and
/// in lower case, but for the blank ones.
pub proof fn levels_are_the_listed_ones(setting: Seq<char>, level: Seq<char>)
    ensures
        levels_of(setting).contains(level) <==> level.len() > 0 && exists|i: int|
            0 <= i < pieces(setting, ',').len() && level == lowercase(
                trimmed(#[trigger] pieces(setting, ',')[i]),
            ),
{
    levels_among_parts(pieces(setting, ','), level);
}

/// The levels among parts.
proof fn levels_among_parts(parts: Seq<Seq<char>>, level: Seq<char>)
    ensures
        lower_levels(parts).contains(level) <==> level.len() > 0 && exists|i: int|
            0 <= i < parts.len() && level == lowercase(trimmed(#[trigger] parts[i])),
    decreases parts.len(),
{
    if parts.len() > 0 {
        let head = parts.drop_last();
        levels_among_parts(head, level);
        let done = lower_levels(head);
        let all = lower_levels(parts);
        let last = lowercase(trimmed(parts.last()));
        assert(parts[parts.len() - 1] == parts.last());
        if all.contains(level) {
            let k = choose|k: int| 0 <= k < all.len() && all[k] == level;
            if k < done.len() {
                assert(done[k] == level);
                let i = choose|i: int|
                    0 <= i < head.len() && level == lowercase(trimmed(#[trigger] head[i]));
                assert(level == lowercase(trimmed(parts[i])));
            }
        }
        if level.len() > 0 && exists|i: int|
            0 <= i < parts.len() && level == lowercase(trimmed(#[trigger] parts[i])) {
            let i = choose|i: int|
                0 <= i < parts.len() && level == lowercase(trimmed(#[trigger] parts[i]));
            if i < head.len() {
                assert(head[i] == parts[i]);
                assert(done.contains(level));
                let k = choose|k: int| 0 <= k < done.len() && done[k] == level;
                assert(all[k] == level);
            } else {
                assert(all[done.len() as int] == level);
            }
        }
    }
}

} // verus!
