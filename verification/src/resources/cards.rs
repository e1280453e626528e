//! Operations on cards.

use vstd::prelude::*;
use vstd::string::StringExecFns;

use vstd::utf8::encode_utf8;

use super::{
    is_request, lemma_param_contains, lemma_query_concat_contains, number_opt, param,
    push_number_param, push_param, string_opt, ApiRequest,
};
use crate::text::decimal;
use crate::text::push_char;
use crate::urlencode::{percent_encode, urlencode};

verus! {

/// Backend hard cap on the `ids` parameter per request; a search with more
/// ids is split into requests of at most this many.
pub const SEARCH_IDS_CHUNK_SIZE: usize = 20;

/// Parameters for a card search.
#[derive(Debug, Clone)]
pub struct CardSearchParams {
    /// Free-text search across card name, set name, and number.
    pub q: Option<String>,
    /// Batch lookup. Split into requests of 20 ids.
    pub ids: Option<Vec<String>>,
    /// Game slug: pokemon, mtg, yugioh, onepiece, lorcana, swu, fab.
    pub game: Option<String>,
    /// Set slug.
    pub set: Option<String>,
    /// 1-100, default 20.
    pub limit: Option<u32>,
    /// Pagination offset, default 0.
    pub offset: Option<u32>,
}

impl Default for CardSearchParams {
    fn default() -> (p: Self)
        ensures
            p.q is None,
            p.ids is None,
            p.game is None,
            p.set is None,
            p.limit is None,
            p.offset is None,
    {
        CardSearchParams { q: None, ids: None, game: None, set: None, limit: None, offset: None }
    }
}

/// Parameters for a card's price history.
#[derive(Debug, Clone)]
pub struct HistoryParams {
    /// 7d, 30d, 90d, 1y. Defaults to 30d on the backend.
    pub period: Option<String>,
}

impl Default for HistoryParams {
    fn default() -> (p: Self)
        ensures
            p.period is None,
    {
        HistoryParams { period: None }
    }
}

/// The texts of a sequence of strings.
pub open spec fn strings_view(v: Seq<String>) -> Seq<Seq<char>> {
    v.map_values(|s: String| s@)
}

/// The ids a search asks for; none when the parameter is absent.
pub open spec fn search_ids(p: CardSearchParams) -> Seq<Seq<char>> {
    match p.ids {
        Some(v) => strings_view(v@),
        None => seq![],
    }
}

/// Texts joined with `,` between them.
pub open spec fn join_comma(parts: Seq<Seq<char>>) -> Seq<char>
    decreases parts.len(),
{
    if parts.len() == 0 {
        seq![]
    } else if parts.len() == 1 {
        parts[0]
    } else {
        join_comma(parts.drop_last()) + seq![','] + parts.last()
    }
}

/// Joining one text gives that text unchanged.
pub proof fn lemma_join_comma_single(a: Seq<char>)
    ensures
        join_comma(seq![a]) == a,
{
}

/// Joining a text in front of one or more others gives that text, a `,` and
/// the join of the others.
pub proof fn lemma_join_comma_front(a: Seq<char>, rest: Seq<Seq<char>>)
    requires
        rest.len() > 0,
    ensures
        join_comma(seq![a] + rest) == a + seq![','] + join_comma(rest),
    decreases rest.len(),
{
    let all = seq![a] + rest;
    if rest.len() == 1 {
        assert(all.drop_last() =~= seq![a]);
        assert(all.last() == rest[0]);
        assert(join_comma(seq![a]) == a);
        assert(join_comma(rest) == rest[0]);
        assert(join_comma(all) == join_comma(all.drop_last()) + seq![','] + all.last());
        assert(join_comma(all) =~= a + seq![','] + join_comma(rest));
    } else {
        lemma_join_comma_front(a, rest.drop_last());
        assert(all.drop_last() =~= seq![a] + rest.drop_last());
        assert(all.last() == rest.last());
        assert(join_comma(all) =~= a + seq![','] + join_comma(rest));
    }
}

/// None of the texts holds a `,`.
pub open spec fn comma_free(parts: Seq<Seq<char>>) -> bool {
    forall|i: int, j: int| 0 <= i < parts.len() && 0 <= j < parts[i].len() ==> #[trigger] parts[i][j]
        != ','
}

proof fn lemma_join_comma_free_has_no_comma(parts: Seq<Seq<char>>)
    requires
        parts.len() == 1,
        comma_free(parts),
    ensures
        forall|j: int| 0 <= j < join_comma(parts).len() ==> #[trigger] join_comma(parts)[j] != ',',
{
    assert forall|j: int| 0 <= j < join_comma(parts).len() implies #[trigger] join_comma(parts)[j]
        != ',' by {
        assert(parts[0][j] != ',');
    }
}

/// Joining loses nothing: texts without commas are given back by their join,
/// so two different non-empty lists of such ids never share a join.
pub proof fn lemma_join_comma_injective(p1: Seq<Seq<char>>, p2: Seq<Seq<char>>)
    requires
        p1.len() > 0,
        p2.len() > 0,
        comma_free(p1),
        comma_free(p2),
        join_comma(p1) == join_comma(p2),
    ensures
        p1 == p2,
    decreases p1.len() + p2.len(),
{
    if p1.len() == 1 && p2.len() == 1 {
        assert(p1 =~= p2);
    } else if p1.len() == 1 {
        lemma_join_comma_free_has_no_comma(p1);
        let r2 = p2.drop_first();
        assert(p2 =~= seq![p2[0]] + r2);
        lemma_join_comma_front(p2[0], r2);
        assert(join_comma(p2)[p2[0].len() as int] == ',');
    } else if p2.len() == 1 {
        lemma_join_comma_free_has_no_comma(p2);
        let r1 = p1.drop_first();
        assert(p1 =~= seq![p1[0]] + r1);
        lemma_join_comma_front(p1[0], r1);
        assert(join_comma(p1)[p1[0].len() as int] == ',');
    } else {
        let a1 = p1[0];
        let a2 = p2[0];
        let r1 = p1.drop_first();
        let r2 = p2.drop_first();
        assert(p1 =~= seq![a1] + r1);
        assert(p2 =~= seq![a2] + r2);
        lemma_join_comma_front(a1, r1);
        lemma_join_comma_front(a2, r2);
        let s = join_comma(p1);
        if a1.len() < a2.len() {
            assert(s[a1.len() as int] == ',');
            assert(s[a1.len() as int] == a2[a1.len() as int]);
            assert(p2[0][a1.len() as int] != ',');
        } else if a2.len() < a1.len() {
            assert(s[a2.len() as int] == ',');
            assert(s[a2.len() as int] == a1[a2.len() as int]);
            assert(p1[0][a2.len() as int] != ',');
        } else {
            assert(a1 =~= s.take(a1.len() as int));
            assert(a2 =~= s.take(a2.len() as int));
            assert(join_comma(r1) =~= s.skip(a1.len() as int + 1));
            assert(join_comma(r2) =~= s.skip(a2.len() as int + 1));
            assert forall|i: int, j: int| 0 <= i < r1.len() && 0 <= j < r1[i].len() implies #[trigger] r1[i][j] != ',' by {
                assert(r1[i] == p1[i + 1]);
            }
            assert forall|i: int, j: int| 0 <= i < r2.len() && 0 <= j < r2[i].len() implies #[trigger] r2[i][j] != ',' by {
                assert(r2[i] == p2[i + 1]);
            }
            lemma_join_comma_injective(r1, r2);
            assert(p1 =~= p2);
        }
    }
}

/// The ids split, in order, into runs of 20, the last run shorter where the
/// count is no multiple of 20.
pub open spec fn id_chunks(ids: Seq<Seq<char>>) -> Seq<Seq<Seq<char>>>
    decreases ids.len(),
{
    if ids.len() == 0 {
        seq![]
    } else if ids.len() <= 20 {
        seq![ids]
    } else {
        seq![ids.take(20)] + id_chunks(ids.skip(20))
    }
}

/// The query of one search request; `ids` is the joined id list it carries.
pub open spec fn search_query(p: CardSearchParams, ids: Option<Seq<char>>) -> Seq<
    (Seq<char>, Seq<char>),
> {
    param("q"@, string_opt(p.q)) + param("ids"@, ids) + param("game"@, string_opt(p.game)) + param(
        "set"@,
        string_opt(p.set),
    ) + param("limit"@, number_opt(p.limit)) + param("offset"@, number_opt(p.offset))
}

/// A search request asks for each of `q`, `ids`, `game`, `set`, `limit` and
/// `offset` exactly when that parameter is given, with its value (numbers
/// in decimal), whatever the others are, and for nothing else; a given
/// offset is the last parameter.
pub proof fn lemma_search_query(
    p: CardSearchParams,
    ids: Option<Seq<char>>,
    k: Seq<char>,
    v: Seq<char>,
)
    ensures
        search_query(p, ids).contains(("q"@, v)) <==> (p.q matches Some(s) && v == s@),
        search_query(p, ids).contains(("ids"@, v)) <==> ids == Some(v),
        search_query(p, ids).contains(("game"@, v)) <==> (p.game matches Some(s) && v == s@),
        search_query(p, ids).contains(("set"@, v)) <==> (p.set matches Some(s) && v == s@),
        search_query(p, ids).contains(("limit"@, v)) <==> (p.limit matches Some(n) && v
            == decimal(n as nat)),
        search_query(p, ids).contains(("offset"@, v)) <==> (p.offset matches Some(n) && v
            == decimal(n as nat)),
        search_query(p, ids).contains((k, v)) ==> k == "q"@ || k == "ids"@ || k == "game"@ || k
            == "set"@ || k == "limit"@ || k == "offset"@,
        p.offset matches Some(n) ==> search_query(p, ids).last() == ("offset"@, decimal(n as nat)),
{
    reveal_strlit("q");
    reveal_strlit("ids");
    reveal_strlit("game");
    reveal_strlit("set");
    reveal_strlit("limit");
    reveal_strlit("offset");
    assert("q"@.len() == 1);
    assert("ids"@.len() == 3);
    assert("game"@.len() == 4);
    assert("set"@.len() == 3);
    assert("limit"@.len() == 5);
    assert("offset"@.len() == 6);
    assert("ids"@[0] == 'i' && "set"@[0] == 's');
    let a = param("q"@, string_opt(p.q));
    let b = param("ids"@, ids);
    let c = param("game"@, string_opt(p.game));
    let d = param("set"@, string_opt(p.set));
    let e = param("limit"@, number_opt(p.limit));
    let f = param("offset"@, number_opt(p.offset));
    lemma_param_contains("q"@, string_opt(p.q));
    lemma_param_contains("ids"@, ids);
    lemma_param_contains("game"@, string_opt(p.game));
    lemma_param_contains("set"@, string_opt(p.set));
    lemma_param_contains("limit"@, number_opt(p.limit));
    lemma_param_contains("offset"@, number_opt(p.offset));
    lemma_query_concat_contains(a, b);
    lemma_query_concat_contains(a + b, c);
    lemma_query_concat_contains(a + b + c, d);
    lemma_query_concat_contains(a + b + c + d, e);
    lemma_query_concat_contains(a + b + c + d + e, f);
    assert(search_query(p, ids) == a + b + c + d + e + f);
    if let Some(n) = p.offset {
        assert(f.len() == 1);
        assert((a + b + c + d + e + f).last() == f[0]);
    }
}

/// The path of a card: `/cards/` and its percent-encoded id.
pub open spec fn card_path(id: Seq<char>) -> Seq<char> {
    "/cards/"@ + percent_encode(encode_utf8(id))
}

/// The query of one search request, with its joined `ids` where given.
pub fn cards_search_query(params: &CardSearchParams, ids: Option<String>) -> (q: Vec<
    (&'static str, String),
>)
    ensures
        super::query_view(q@) == search_query(*params, string_opt(ids)),
{
    let mut q: Vec<(&'static str, String)> = Vec::new();
    push_param(&mut q, "q", params.q.clone());
    push_param(&mut q, "ids", ids);
    push_param(&mut q, "game", params.game.clone());
    push_param(&mut q, "set", params.set.clone());
    push_number_param(&mut q, "limit", params.limit);
    push_number_param(&mut q, "offset", params.offset);
    assert(super::query_view(q@) =~= search_query(*params, string_opt(ids)));
    q
}

/// Joins `ids[start..end]` with `,`.
fn join_ids(ids: &Vec<String>, start: usize, end: usize) -> (s: String)
    requires
        start <= end <= ids@.len(),
    ensures
        s@ == join_comma(strings_view(ids@).subrange(start as int, end as int)),
{
    let ghost all = strings_view(ids@);
    let mut s = String::new();
    let mut i = start;
    while i < end
        invariant
            start <= i <= end <= ids@.len(),
            all == strings_view(ids@),
            s@ == join_comma(all.subrange(start as int, i as int)),
        decreases end - i,
    {
        let ghost before = all.subrange(start as int, i as int);
        let ghost after = all.subrange(start as int, i + 1);
        assert(after.drop_last() =~= before);
        assert(after.last() == ids@[i as int]@);
        if i > start {
            push_char(&mut s, ',');
        }
        s.append(ids[i].as_str());
        proof {
            if i == start {
                assert(before =~= Seq::<Seq<char>>::empty());
                assert(after.len() == 1);
            }
        }
        i += 1;
    }
    s
}

/// How a search goes out: one request, or one per run of 20 ids whose pages
/// are then merged.
pub enum SearchPlan {
    Single(ApiRequest),
    Chunked(Vec<ApiRequest>),
}

proof fn lemma_id_chunks_step(ids: Seq<Seq<char>>, start: int)
    requires
        0 <= start < ids.len(),
    ensures
        ids.len() - start <= 20 ==> id_chunks(ids.skip(start)) == seq![ids.subrange(start, ids.len() as int)],
        ids.len() - start > 20 ==> id_chunks(ids.skip(start)) == seq![ids.subrange(start, start + 20)] + id_chunks(ids.skip(start + 20)),
{
    let rest = ids.skip(start);
    if rest.len() <= 20 {
        assert(rest =~= ids.subrange(start, ids.len() as int));
    } else {
        assert(rest.take(20) =~= ids.subrange(start, start + 20));
        assert(rest.skip(20) =~= ids.skip(start + 20));
    }
}

/// Chunking loses, adds and reorders nothing: the runs, concatenated, are
/// the ids; every run holds 1 to 20 ids, every run but the last exactly 20,
/// and there are as many runs as 20 goes into the id count, rounded up.
pub proof fn lemma_id_chunks(ids: Seq<Seq<char>>)
    ensures
        id_chunks(ids).flatten() == ids,
        forall|i: int|
            0 <= i < id_chunks(ids).len() ==> 0 < #[trigger] id_chunks(ids)[i].len() <= 20,
        forall|i: int|
            0 <= i < id_chunks(ids).len() - 1 ==> #[trigger] id_chunks(ids)[i].len() == 20,
        id_chunks(ids).len() == (ids.len() + 19) / 20,
    decreases ids.len(),
{
    let c = id_chunks(ids);
    if ids.len() == 0 {
        assert(c.flatten() =~= ids);
    } else if ids.len() <= 20 {
        assert(c.drop_first() =~= Seq::<Seq<Seq<char>>>::empty());
        assert(c.drop_first().flatten() =~= Seq::<Seq<char>>::empty());
        assert(c.first() == ids);
        assert(c.flatten() =~= ids);
    } else {
        let rest = ids.skip(20);
        lemma_id_chunks(rest);
        assert(c.drop_first() =~= id_chunks(rest));
        assert(c.flatten() =~= ids.take(20) + rest);
        assert(ids.take(20) + rest =~= ids);
        assert forall|i: int| 0 <= i < c.len() implies 0 < #[trigger] c[i].len() <= 20 by {
            if i > 0 {
                assert(c[i] == id_chunks(rest)[i - 1]);
            }
        }
        assert forall|i: int| 0 <= i < c.len() - 1 implies #[trigger] c[i].len() == 20 by {
            if i > 0 {
                assert(c[i] == id_chunks(rest)[i - 1]);
            }
        }
    }
}

/// The requests of a search: none of the ids or up to 20 of them go out in
/// one request, more are split into runs of 20, one request each.
pub fn cards_search_plan(params: &CardSearchParams) -> (plan: SearchPlan)
    ensures
        search_ids(*params).len() == 0 ==> plan is Single && is_request(
            &plan->Single_0,
            "/cards/search"@,
            search_query(*params, None),
        ),
        0 < search_ids(*params).len() <= 20 ==> plan is Single && is_request(
            &plan->Single_0,
            "/cards/search"@,
            search_query(*params, Some(join_comma(search_ids(*params)))),
        ),
        search_ids(*params).len() > 20 ==> plan is Chunked && plan->Chunked_0@.len() == id_chunks(
            search_ids(*params),
        ).len() && forall|i: int|
            0 <= i < plan->Chunked_0@.len() ==> is_request(
                #[trigger] &plan->Chunked_0@[i],
                "/cards/search"@,
                search_query(*params, Some(join_comma(id_chunks(search_ids(*params))[i]))),
            ),
{
    let ghost ids_view = search_ids(*params);
    let empty: Vec<String> = Vec::new();
    let ids: &Vec<String> = match &params.ids {
        Some(v) => v,
        None => &empty,
    };
    assert(strings_view(ids@) == ids_view);
    let n = ids.len();
    if n == 0 {
        let q = cards_search_query(params, None);
        return SearchPlan::Single(ApiRequest { path: "/cards/search".to_owned(), query: q });
    }
    if n <= SEARCH_IDS_CHUNK_SIZE {
        let joined = join_ids(ids, 0, n);
        assert(ids_view.subrange(0, n as int) =~= ids_view);
        let q = cards_search_query(params, Some(joined));
        return SearchPlan::Single(ApiRequest { path: "/cards/search".to_owned(), query: q });
    }
    let mut requests: Vec<ApiRequest> = Vec::new();
    let mut start: usize = 0;
    let ghost mut k: int = 0;
    assert(ids_view.skip(0) =~= ids_view);
    while start < n
        invariant
            n == ids@.len(),
            strings_view(ids@) == ids_view,
            ids_view == search_ids(*params),
            start <= n,
            0 <= k <= id_chunks(ids_view).len(),
            requests@.len() == k,
            start < n ==> id_chunks(ids_view) == id_chunks(ids_view).take(k) + id_chunks(
                ids_view.skip(start as int),
            ),
            start == n ==> id_chunks(ids_view).len() == k,
            forall|i: int|
                0 <= i < k ==> is_request(
                    #[trigger] &requests@[i],
                    "/cards/search"@,
                    search_query(*params, Some(join_comma(id_chunks(ids_view)[i]))),
                ),
        decreases n - start,
    {
        proof {
            lemma_id_chunks_step(ids_view, start as int);
        }
        let end = if n - start <= SEARCH_IDS_CHUNK_SIZE {
            n
        } else {
            start + SEARCH_IDS_CHUNK_SIZE
        };
        let joined = join_ids(ids, start, end);
        proof {
            let chunks = id_chunks(ids_view);
            let rest = id_chunks(ids_view.skip(start as int));
            assert(rest[0] == ids_view.subrange(start as int, end as int));
            assert(chunks.take(k).len() == k);
            assert(chunks[k] == (chunks.take(k) + rest)[k]);
            assert(chunks[k] == ids_view.subrange(start as int, end as int));
        }
        let q = cards_search_query(params, Some(joined));
        requests.push(ApiRequest { path: "/cards/search".to_owned(), query: q });
        proof {
            if end < n {
                let chunks = id_chunks(ids_view);
                let tail = id_chunks(ids_view.skip(end as int));
                assert(chunks =~= chunks.take(k) + seq![ids_view.subrange(start as int, end as int)]
                    + tail);
                assert(chunks.take(k + 1) =~= chunks.take(k) + seq![
                    ids_view.subrange(start as int, end as int),
                ]);
                assert(chunks =~= chunks.take(k + 1) + tail);
            } else {
                assert(id_chunks(ids_view) =~= id_chunks(ids_view).take(k) + seq![
                    ids_view.subrange(start as int, end as int),
                ]);
            }
            k = k + 1;
        }
        start = end;
    }
    SearchPlan::Chunked(requests)
}

/// The path of a card's own request.
pub fn cards_get_path(id: &str) -> (path: String)
    ensures
        path@ == card_path(id@),
{
    let mut path = "/cards/".to_owned();
    let encoded = urlencode(id);
    path.append(encoded.as_str());
    path
}

/// The request that gets a single card by its id.
pub fn cards_get_request(id: &str) -> (r: ApiRequest)
    ensures
        is_request(&r, card_path(id@), seq![]),
{
    let q: Vec<(&'static str, String)> = Vec::new();
    let r = ApiRequest { path: cards_get_path(id), query: q };
    assert(super::query_view(r.query@) =~= seq![]);
    r
}

/// The request for a card's daily price history: `/cards/<id>/history`,
/// with `period` where given.
pub fn cards_history_request(id: &str, params: HistoryParams) -> (r: ApiRequest)
    ensures
        is_request(&r, card_path(id@) + "/history"@, param("period"@, string_opt(params.period))),
{
    let mut path = cards_get_path(id);
    path.append("/history");
    let mut q: Vec<(&'static str, String)> = Vec::new();
    push_param(&mut q, "period", params.period);
    assert(super::query_view(Seq::<(&'static str, String)>::empty()) =~= seq![]);
    ApiRequest { path, query: q }
}

/// The pages of a chunked search merged into one.
pub struct MergedPage<T> {
    pub data: Vec<T>,
    pub total: usize,
    pub limit: usize,
    pub offset: usize,
}

/// Merges the pages of a chunked search, in order: the total is the number
/// of items, the limit and offset are those asked for, else the total and 0.
pub fn merge_chunked_search<T>(pages: Vec<Vec<T>>, limit: Option<u32>, offset: Option<u32>) -> (m: MergedPage<T>)
    ensures
        m.data@ == pages@.map_values(|p: Vec<T>| p@).flatten_alt(),
        m.total == m.data@.len(),
        m.limit == match limit {
            Some(v) => v as usize,
            None => m.total,
        },
        m.offset == match offset {
            Some(v) => v as usize,
            None => 0,
        },
{
    let ghost all = pages@.map_values(|p: Vec<T>| p@);
    let mut rest = pages;
    let mut merged: Vec<T> = Vec::new();
    let ghost mut k: int = 0;
    assert(all.skip(0) =~= all);
    assert(all.take(0) =~= Seq::<Seq<T>>::empty());
    while rest.len() > 0
        invariant
            0 <= k <= all.len(),
            rest@.len() == all.len() - k,
            rest@.map_values(|p: Vec<T>| p@) == all.skip(k),
            merged@ == all.take(k).flatten_alt(),
        decreases rest@.len(),
    {
        let ghost before = rest@;
        assert(before.map_values(|p: Vec<T>| p@)[0] == all.skip(k)[0]);
        let mut page = rest.remove(0);
        assert(page@ == all[k]);
        merged.append(&mut page);
        proof {
            assert(all.take(k + 1).drop_last() =~= all.take(k));
            assert(rest@ =~= before.skip(1));
            let mapped = rest@.map_values(|p: Vec<T>| p@);
            let before_mapped = before.map_values(|p: Vec<T>| p@);
            let next = all.skip(k + 1);
            assert forall|i: int| 0 <= i < mapped.len() implies #[trigger] mapped[i] == next[i] by {
                assert(before_mapped[i + 1] == all.skip(k)[i + 1]);
            }
            assert(rest@.map_values(|p: Vec<T>| p@) =~= all.skip(k + 1));
            k = k + 1;
        }
    }
    assert(all.take(k) =~= all);
    let total = merged.len();
    let limit = match limit {
        Some(v) => v as usize,
        None => total,
    };
    let offset = match offset {
        Some(v) => v as usize,
        None => 0,
    };
    MergedPage { data: merged, total, limit, offset }
}

/// What a chunked search holds: its requests in order, the pages received so
/// far (one per request sent), and the limit and offset asked for.
pub struct ChunkedSearchView<T> {
    pub requests: Seq<ApiRequest>,
    pub pages: Seq<Seq<T>>,
    pub limit: Option<u32>,
    pub offset: Option<u32>,
}

/// A chunked search under way: its requests go out one at a time, in order,
/// each page is kept, and the first failure ends it.
pub struct ChunkedSearch<T> {
    requests: Vec<ApiRequest>,
    pages: Vec<Vec<T>>,
    limit: Option<u32>,
    offset: Option<u32>,
}

/// What a chunked search does after a response: go on with the next request,
/// stop with the merged pages, or stop with the first failure.
pub enum ChunkStep<T, E> {
    Next(ChunkedSearch<T>),
    Done(MergedPage<T>),
    Failed(E),
}

impl<T> View for ChunkedSearch<T> {
    type V = ChunkedSearchView<T>;

    closed spec fn view(&self) -> ChunkedSearchView<T> {
        ChunkedSearchView {
            requests: self.requests@,
            pages: self.pages@.map_values(|p: Vec<T>| p@),
            limit: self.limit,
            offset: self.offset,
        }
    }
}

/// `m` is the merge of these pages with this limit and offset.
pub open spec fn is_merged<T>(m: &MergedPage<T>, pages: Seq<Seq<T>>, limit: Option<u32>, offset: Option<u32>) -> bool {
    &&& m.data@ == pages.flatten_alt()
    &&& m.total == m.data@.len()
    &&& m.limit == match limit {
        Some(v) => v as usize,
        None => m.total,
    }
    &&& m.offset == match offset {
        Some(v) => v as usize,
        None => 0,
    }
}

impl<T> ChunkedSearch<T> {
    /// Starts a chunked search over its requests, with nothing received yet.
    pub fn new(requests: Vec<ApiRequest>, limit: Option<u32>, offset: Option<u32>) -> (s: Self)
        ensures
            s@.requests == requests@,
            s@.pages.len() == 0,
            s@.limit == limit,
            s@.offset == offset,
    {
        let s = ChunkedSearch { requests, pages: Vec::new(), limit, offset };
        assert(s@.pages =~= Seq::<Seq<T>>::empty());
        s
    }

    /// The request to send next: the first one whose page has not come yet,
    /// `None` when every page is in.
    pub fn next_request(&self) -> (r: Option<&ApiRequest>)
        ensures
            (r is Some) == (self@.pages.len() < self@.requests.len()),
            r is Some ==> *r->Some_0 == self@.requests[self@.pages.len() as int],
    {
        let n = self.pages.len();
        if n < self.requests.len() {
            Some(&self.requests[n])
        } else {
            None
        }
    }

    /// Takes the outcome of the pending request: a failure ends the search
    /// with that failure; a page is kept, and once every page is in they are
    /// merged.
    pub fn step<E>(self, outcome: Result<Vec<T>, E>) -> (r: ChunkStep<T, E>)
        requires
            self@.pages.len() < self@.requests.len(),
        ensures
            match outcome {
                Err(e) => r is Failed && r->Failed_0 == e,
                Ok(page) => {
                    let pages = self@.pages.push(page@);
                    if pages.len() == self@.requests.len() {
                        r is Done && is_merged(&r->Done_0, pages, self@.limit, self@.offset)
                    } else {
                        r is Next && r->Next_0@ == (ChunkedSearchView { pages, ..self@ })
                    }
                },
            },
    {
        match outcome {
            Err(e) => ChunkStep::Failed(e),
            Ok(page) => {
                let ghost old_view = self@;
                let ChunkedSearch { requests, mut pages, limit, offset } = self;
                pages.push(page);
                let ghost new_pages = old_view.pages.push(page@);
                assert(pages@.map_values(|p: Vec<T>| p@) =~= new_pages);
                if pages.len() == requests.len() {
                    ChunkStep::Done(merge_chunked_search(pages, limit, offset))
                } else {
                    let s = ChunkedSearch { requests, pages, limit, offset };
                    assert(s@ == (ChunkedSearchView { pages: new_pages, ..old_view }));
                    ChunkStep::Next(s)
                }
            },
        }
    }

    /// Merges the pages received so far.
    pub fn finish(self) -> (m: MergedPage<T>)
        ensures
            is_merged(&m, self@.pages, self@.limit, self@.offset),
    {
        merge_chunked_search(self.pages, self.limit, self.offset)
    }
}

} // verus!
