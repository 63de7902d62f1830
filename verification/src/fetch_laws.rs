//! What the catalog is asked and what its answers lead to, said of the calls and
//! documents themselves.

use crate::catalog::{
    contract_of, identities_of, levels_of, linked_terms, links_of, terms_of, LinkView,
};
use crate::config::{per_call_ms, Config};
use crate::fetch::{
    after_search, asset_query, columns_query, first_step, found_in, links_query, login_call_of,
    must, search_call_of, search_of, sources_of, step_after, terms_query, terms_search, text_list,
    token_call_of, AuthView, Endpoint, FetchError, IdentityView, PendingView, ReplyView, Stage,
    StepView,
};
use crate::json::{empty_object, json_text, member, number_from, with_member, JsonView};
use crate::laws::with_member_law;
use crate::text::lowercase;
use crate::timing::call_timeout;
use vstd::prelude::*;

verus! {

// ---- queries ----

/// An object of one member has that member and no other.
proof fn one_member(k: Seq<char>, v: JsonView, q: Seq<char>)
    ensures
        member(with_member(empty_object(), k, v), k) == Some(v),
        q != k ==> member(with_member(empty_object(), k, v), q) is None,
{
    with_member_law(empty_object(), k, v);
    assert(member(empty_object(), q) is None);
}

/// A condition names its field and lists the values, all of them and in order.
pub proof fn condition_lists_the_values(field: Seq<char>, values: Seq<Seq<char>>, q: Seq<char>)
    ensures
        ({
            let c = terms_query(field, values);
            &&& member(c, "terms"@) matches Some(terms) && (member(terms, field) matches Some(
                JsonView::List(listed),
            ) && listed.len() == values.len() && forall|i: int|
                0 <= i < values.len() ==> #[trigger] listed[i] == JsonView::Text(values[i])) && (q
                != field ==> member(terms, q) is None)
            &&& q != "terms"@ ==> member(c, q) is None
        }),
{
    let terms = with_member(empty_object(), field, text_list(values));
    one_member(field, text_list(values), q);
    one_member("terms"@, terms, q);
}

/// A search begins at the first hit, asks for `size` hits, and has the conditions
/// as its query.
pub proof fn search_says_its_query(size: i64, conditions: JsonView, q: Seq<char>)
    ensures
        ({
            let s = search_of(size, conditions);
            &&& member(s, "from"@) == Some(JsonView::Number(number_from(0)))
            &&& member(s, "size"@) == Some(JsonView::Number(number_from(size)))
            &&& member(s, "query"@) matches Some(query) && member(query, "bool"@) == Some(conditions)
            &&& q != "from"@ && q != "size"@ && q != "query"@ ==> member(s, q) is None
        }),
{
    reveal_strlit("from");
    reveal_strlit("size");
    reveal_strlit("query");
    assert("from"@.len() == 4 && "size"@.len() == 4 && "query"@.len() == 5);
    assert("from"@[0] != "size"@[0]);
    let from = JsonView::Number(number_from(0));
    let a = with_member(empty_object(), "from"@, from);
    with_member_law(empty_object(), "from"@, from);
    with_member_law(a, "size"@, JsonView::Number(number_from(size)));
    let b = with_member(a, "size"@, JsonView::Number(number_from(size)));
    let query = with_member(empty_object(), "bool"@, conditions);
    one_member("bool"@, conditions, q);
    with_member_law(b, "query"@, query);
    assert(member(empty_object(), q) is None);
}

/// The queries ask for: the one object with the asset's identity; the flat fields
/// below the asset's location; the glossary relationships whose source is one of
/// the columns; and the objects with the linked identities.
pub proof fn queries_ask_for(
    schema_id: Seq<char>,
    location: Seq<char>,
    columns: Seq<Seq<char>>,
    ids: Seq<Seq<char>>,
)
    ensures
        exists|c: JsonView|
            asset_query(schema_id) == #[trigger] search_of(1, c) && member(c, "must"@) == Some(
                JsonView::List(
                    seq![
                        terms_query("elementType"@, seq!["OBJECT"@]),
                        terms_query("core.identity"@, seq![schema_id]),
                    ],
                ),
            ) && member(c, "filter"@) is None,
        exists|c: JsonView|
            columns_query(location) == #[trigger] search_of(1000, c) && member(c, "must"@) == Some(
                JsonView::List(
                    seq![
                        terms_query(
                            "core.classType"@,
                            seq!["com.infa.odin.models.file.flat.FlatField"@],
                        ),
                    ],
                ),
            ) && member(c, "filter"@) == Some(
                JsonView::List(
                    seq![terms_query("core.location::path_hierarchy.parent"@, seq![location])],
                ),
            ),
        exists|c: JsonView|
            links_query(columns) == #[trigger] search_of(5000, c) && member(c, "must"@) == Some(
                JsonView::List(
                    seq![
                        terms_query("elementType"@, seq!["RELATIONSHIP"@]),
                        terms_query(
                            "type"@,
                            seq!["com.infa.ccgf.models.governance.IClassTechnicalGlossaryBase"@],
                        ),
                        terms_query("core.sourceIdentity"@, columns),
                    ],
                ),
            ) && member(c, "filter"@) is None,
        exists|c: JsonView|
            terms_search(ids) == #[trigger] search_of(5000, c) && member(c, "must"@) == Some(
                JsonView::List(
                    seq![
                        terms_query("elementType"@, seq!["OBJECT"@]),
                        terms_query("core.identity"@, ids),
                    ],
                ),
            ) && member(c, "filter"@) is None,
{
    reveal_strlit("must");
    reveal_strlit("filter");
    assert("must"@.len() == 4 && "filter"@.len() == 6);
    let a = seq![
        terms_query("elementType"@, seq!["OBJECT"@]),
        terms_query("core.identity"@, seq![schema_id]),
    ];
    let b = seq![
        terms_query("core.classType"@, seq!["com.infa.odin.models.file.flat.FlatField"@]),
    ];
    let below = JsonView::List(
        seq![terms_query("core.location::path_hierarchy.parent"@, seq![location])],
    );
    let c = seq![
        terms_query("elementType"@, seq!["RELATIONSHIP"@]),
        terms_query(
            "type"@,
            seq!["com.infa.ccgf.models.governance.IClassTechnicalGlossaryBase"@],
        ),
        terms_query("core.sourceIdentity"@, columns),
    ];
    let d = seq![
        terms_query("elementType"@, seq!["OBJECT"@]),
        terms_query("core.identity"@, ids),
    ];
    one_member("must"@, JsonView::List(a), "filter"@);
    one_member("must"@, JsonView::List(b), "filter"@);
    with_member_law(empty_object(), "must"@, JsonView::List(b));
    with_member_law(must(b), "filter"@, below);
    one_member("must"@, JsonView::List(c), "filter"@);
    one_member("must"@, JsonView::List(d), "filter"@);
    assert(asset_query(schema_id) == search_of(1, must(a)));
    assert(columns_query(location) == search_of(1000, with_member(must(b), "filter"@, below)));
    assert(links_query(columns) == search_of(5000, must(c)));
    assert(terms_search(ids) == search_of(5000, must(d)));
}

// ---- calls ----

/// The sign-in carries the configured user and password and nothing else; the
/// call for a token carries the session and the nonce; a search carries the token
/// and the organization. Each goes to its host, with its timeout.
pub proof fn calls_carry_what_they_need(
    config: Config,
    session: Seq<char>,
    nonce: Seq<char>,
    auth: AuthView,
    query: JsonView,
    ms: u64,
    q: Seq<char>,
)
    ensures
        ({
            let call = login_call_of(config, ms);
            &&& call.endpoint == Endpoint::Login && call.post && call.timeout_ms == ms
            &&& call.path == "/identity-service/api/v1/Login"@
            &&& call.headers == seq![("Content-Type"@, "application/json"@)]
            &&& exists|doc: JsonView|
                call.body == Some(#[trigger] json_text(doc)) && member(doc, "username"@) == Some(
                    JsonView::Text(config.cdgc_org_username@),
                ) && member(doc, "password"@) == Some(JsonView::Text(config.cdgc_org_password@))
                    && (q != "username"@ && q != "password"@ ==> member(doc, q) is None)
        }),
        ({
            let call = token_call_of(session, nonce, ms);
            &&& call.endpoint == Endpoint::Login && !call.post && call.timeout_ms == ms
            &&& call.path == "/identity-service/api/v1/jwt/Token?client_id=idmc_api&nonce="@ + nonce
            &&& call.headers == seq![
                ("cookie"@, "USER_SESSION="@ + session),
                ("IDS-SESSION-ID"@, session),
            ]
            &&& call.body is None
        }),
        ({
            let call = search_call_of(auth, query, ms);
            &&& call.endpoint == Endpoint::Search && call.post && call.timeout_ms == ms
            &&& call.path == "/ccgf-searchv2/api/v1/search"@
            &&& call.headers == seq![
                ("Authorization"@, "Bearer "@ + auth.token),
                ("X-INFA-ORG-ID"@, auth.org),
                ("X-INFA-SEARCH-LANGUAGE"@, "elasticsearch"@),
                ("Content-Type"@, "application/json"@),
            ]
            &&& call.body == Some(json_text(query))
        }),
{
    reveal_strlit("username");
    reveal_strlit("password");
    assert("username"@.len() == 8 && "password"@.len() == 8 && "username"@[0] != "password"@[0]);
    let user = JsonView::Text(config.cdgc_org_username@);
    let pass = JsonView::Text(config.cdgc_org_password@);
    let a = with_member(empty_object(), "username"@, user);
    with_member_law(empty_object(), "username"@, user);
    with_member_law(a, "password"@, pass);
    assert(member(empty_object(), q) is None);
    let doc = with_member(a, "password"@, pass);
    assert(login_call_of(config, ms).body == Some(json_text(doc)));
}

// ---- answers ----

/// What a search found are the sources of its hits that have one, in order: `at`
/// are the positions of these hits.
pub proof fn found_are_the_sources(hits: Seq<JsonView>) -> (at: Seq<int>)
    ensures
        sources_of(hits).len() == at.len(),
        forall|k: int|
            0 <= k < at.len() ==> 0 <= #[trigger] at[k] < hits.len() && member(
                hits[at[k]],
                "sourceAsMap"@,
            ) == Some(sources_of(hits)[k]),
        forall|k: int, l: int| 0 <= k < l < at.len() ==> #[trigger] at[k] < #[trigger] at[l],
        forall|i: int|
            0 <= i < hits.len() && member(#[trigger] hits[i], "sourceAsMap"@) is Some
                ==> at.contains(i),
    decreases hits.len(),
{
    if hits.len() == 0 {
        seq![]
    } else {
        let head = hits.drop_last();
        let n = hits.len() - 1;
        let before = found_are_the_sources(head);
        let at = if member(hits[n], "sourceAsMap"@) is Some {
            before.push(n)
        } else {
            before
        };
        assert forall|k: int| 0 <= k < head.len() implies head[k] == hits[k] by {}
        assert forall|i: int|
            0 <= i < hits.len() && member(#[trigger] hits[i], "sourceAsMap"@)
                is Some implies at.contains(i) by {
            if i < n {
                assert(head[i] == hits[i]);
                let k = choose|k: int| 0 <= k < before.len() && before[k] == i;
                assert(at[k] == i);
            } else {
                assert(at[before.len() as int] == n);
            }
        }
        assert forall|k: int| 0 <= k < at.len() implies 0 <= #[trigger] at[k] < hits.len() && member(
            hits[at[k]],
            "sourceAsMap"@,
        ) == Some(sources_of(hits)[k]) by {
            if k < before.len() {
                assert(at[k] == before[k]);
                assert(hits[at[k]] == head[before[k]]);
            }
        }
        at
    }
}

/// The hits of an answer are the list under `hits` of its `hits`; an answer of
/// any other form found nothing.
pub proof fn hits_of_an_answer(answer: JsonView)
    ensures
        member(answer, "hits"@) matches Some(outer) ==> (member(outer, "hits"@) matches Some(
            JsonView::List(list),
        ) ==> found_in(answer) == sources_of(list)),
        !(member(answer, "hits"@) matches Some(outer) && (member(outer, "hits"@) matches Some(
            JsonView::List(_),
        ))) ==> found_in(answer).len() == 0,
{
}

/// Every answer is judged in turn: a failed call, a status of 300 or more, and an
/// answer that cannot be read each end the fetch with an error of the call that
/// was made.
pub proof fn bad_answers_end_the_fetch(
    config: Config,
    schema_id: Seq<char>,
    org: Seq<char>,
    auth: AuthView,
    session: Option<(Seq<char>, Seq<char>)>,
    token: Option<Seq<char>>,
    answer: Option<JsonView>,
    status: u32,
    nonce: Seq<char>,
    elapsed: i64,
)
    ensures
        ({
            let login = PendingView::Login;
            let jwt = PendingView::Token { org };
            let asset = PendingView::Asset { auth };
            let after = |p: PendingView, r: ReplyView|
                step_after(config, schema_id, p, r, nonce, elapsed);
            &&& after(login, ReplyView::Failed) == StepView::Failed(FetchError::Call(Stage::Login))
            &&& after(jwt, ReplyView::Failed) == StepView::Failed(FetchError::Call(Stage::Token))
            &&& after(asset, ReplyView::Failed) == StepView::Failed(FetchError::Call(Stage::Search))
            &&& status >= 300 ==> after(login, ReplyView::Login { status, session })
                == StepView::Failed(FetchError::Status(Stage::Login, status))
            &&& status >= 300 ==> after(jwt, ReplyView::Token { status, token })
                == StepView::Failed(FetchError::Status(Stage::Token, status))
            &&& status >= 300 ==> after(asset, ReplyView::Search { status, answer })
                == StepView::Failed(FetchError::Status(Stage::Search, status))
            &&& status < 300 ==> after(login, ReplyView::Login { status, session: None })
                == StepView::Failed(FetchError::Answer(Stage::Login))
            &&& status < 300 ==> after(jwt, ReplyView::Token { status, token: None })
                == StepView::Failed(FetchError::Answer(Stage::Token))
            &&& status < 300 ==> after(asset, ReplyView::Search { status, answer: None })
                == StepView::Failed(FetchError::Answer(Stage::Search))
        }),
{
}

/// A good answer leads on: the sign-in to the token, the token to the search for
/// the asset, each call with what the answer gave, and only while there is time.
pub proof fn good_answers_lead_on(
    config: Config,
    schema_id: Seq<char>,
    session: Seq<char>,
    org: Seq<char>,
    token: Seq<char>,
    status: u32,
    nonce: Seq<char>,
    elapsed: i64,
)
    requires
        status < 300,
    ensures
        ({
            let auth = AuthView { token, org };
            let login = step_after(
                config,
                schema_id,
                PendingView::Login,
                ReplyView::Login { status, session: Some((session, org)) },
                nonce,
                elapsed,
            );
            let jwt = step_after(
                config,
                schema_id,
                PendingView::Token { org },
                ReplyView::Token { status, token: Some(token) },
                nonce,
                elapsed,
            );
            match call_timeout(per_call_ms(config), elapsed) {
                Some(ms) => {
                    &&& first_step(config, elapsed) == (StepView::Call {
                        call: login_call_of(config, ms),
                        pending: PendingView::Login,
                    })
                    &&& login == (StepView::Call {
                        call: token_call_of(session, nonce, ms),
                        pending: PendingView::Token { org },
                    })
                    &&& jwt == (StepView::Call {
                        call: search_call_of(auth, asset_query(schema_id), ms),
                        pending: PendingView::Asset { auth },
                    })
                },
                None => {
                    &&& first_step(config, elapsed) == StepView::Failed(
                        FetchError::Budget(Stage::Login),
                    )
                    &&& login == StepView::Failed(FetchError::Budget(Stage::Token))
                    &&& jwt == StepView::Failed(FetchError::Budget(Stage::Search))
                },
            }
        }),
{
}

/// What the searches find leads on: the first asset found to the columns below its
/// location, with its name and external id; the columns to the links of all their
/// identities; the links to all terms that they lead to, or without any to the
/// contract; and the terms to the contract. No asset, an asset without a location
/// and no columns end the fetch.
pub proof fn searches_lead_on(
    config: Config,
    auth: AuthView,
    identity: IdentityView,
    columns: Seq<JsonView>,
    links: Seq<LinkView>,
    found: Seq<JsonView>,
    elapsed: i64,
    ms: u64,
)
    requires
        call_timeout(per_call_ms(config), elapsed) == Some(ms),
    ensures
        ({
            let asset = after_search(config, PendingView::Asset { auth }, found, elapsed);
            let cols = after_search(config, PendingView::Columns { auth, identity }, found, elapsed);
            let rels = after_search(
                config,
                PendingView::Links { auth, identity, columns },
                found,
                elapsed,
            );
            let terms = after_search(
                config,
                PendingView::Terms { identity, columns, links },
                found,
                elapsed,
            );
            let built = |l: Seq<LinkView>, t: Seq<JsonView>|
                contract_of(
                    columns,
                    l,
                    terms_of(t),
                    lowercase(
                        match config.sensitive_marker {
                            Some(s) => s@,
                            None => "confidential"@,
                        },
                    ),
                    levels_of(
                        match config.sensitive_levels {
                            Some(s) => s@,
                            None => "confidential,restricted"@,
                        },
                    ),
                );
            &&& found.len() == 0 ==> asset == StepView::Failed(FetchError::AssetNotFound) && cols
                == StepView::Failed(FetchError::NoColumns)
            &&& found.len() > 0 && !(member(found[0], "core.location"@) matches Some(
                JsonView::Text(_),
            )) ==> asset == StepView::Failed(FetchError::NoLocation)
            &&& found.len() > 0 ==> (member(found[0], "core.location"@) matches Some(
                JsonView::Text(location),
            ) ==> (asset matches StepView::Call { call, pending } && call == search_call_of(
                auth,
                columns_query(location),
                ms,
            ) && (pending matches PendingView::Columns { auth: same, identity: found_identity }
                && same == auth && (match member(found[0], "core.name"@) {
                Some(JsonView::Text(n)) => found_identity.name == Some(n),
                _ => found_identity.name is None,
            }) && (match member(found[0], "core.externalId"@) {
                Some(JsonView::Text(n)) => found_identity.external_id == Some(n),
                _ => found_identity.external_id is None,
            }))))
            &&& found.len() > 0 ==> cols == (StepView::Call {
                call: search_call_of(auth, links_query(identities_of(found)), ms),
                pending: PendingView::Links { auth, identity, columns: found },
            })
            &&& linked_terms(links_of(found)).len() > 0 ==> rels == (StepView::Call {
                call: search_call_of(auth, terms_search(linked_terms(links_of(found))), ms),
                pending: PendingView::Terms { identity, columns, links: links_of(found) },
            })
            &&& linked_terms(links_of(found)).len() == 0 ==> rels == (StepView::Done {
                fields: built(links_of(found), seq![]),
                identity,
            })
            &&& terms == (StepView::Done { fields: built(links, found), identity })
        }),
{
}

} // verus!
