//! Operations on sets.

use vstd::prelude::*;

use super::{
    is_request, lemma_param_contains, lemma_query_concat_contains, number_opt, param,
    push_number_param, push_param, string_opt, ApiRequest,
};
use crate::text::decimal;

verus! {

/// Parameters for listing sets.
#[derive(Debug, Clone)]
pub struct SetListParams {
    pub game: Option<String>,
    pub limit: Option<u32>,
    pub offset: Option<u32>,
}

impl Default for SetListParams {
    fn default() -> (p: Self)
        ensures
            p.game is None,
            p.limit is None,
            p.offset is None,
    {
        SetListParams { game: None, limit: None, offset: None }
    }
}

/// The query of a set list: `game`, `limit` and `offset` where given.
pub open spec fn set_list_query(p: SetListParams) -> Seq<(Seq<char>, Seq<char>)> {
    param("game"@, string_opt(p.game)) + param("limit"@, number_opt(p.limit)) + param(
        "offset"@,
        number_opt(p.offset),
    )
}

/// A set list asks for `game=<g>` exactly when a game `g` is given, for
/// `limit=<n>` exactly when a limit `n` is given and for `offset=<n>` exactly
/// when an offset `n` is given, each whatever the others are, and asks for
/// nothing else.
pub proof fn lemma_set_list_query(p: SetListParams, k: Seq<char>, v: Seq<char>)
    ensures
        set_list_query(p).contains(("game"@, v)) <==> (p.game matches Some(g) && v == g@),
        set_list_query(p).contains(("limit"@, v)) <==> (p.limit matches Some(n) && v == decimal(
            n as nat,
        )),
        set_list_query(p).contains(("offset"@, v)) <==> (p.offset matches Some(n) && v == decimal(
            n as nat,
        )),
        set_list_query(p).contains((k, v)) ==> k == "game"@ || k == "limit"@ || k == "offset"@,
        p.game matches Some(g) ==> set_list_query(p)[0] == ("game"@, g@),
{
    reveal_strlit("game");
    reveal_strlit("limit");
    reveal_strlit("offset");
    assert("game"@.len() == 4);
    assert("limit"@.len() == 5);
    assert("offset"@.len() == 6);
    let g = param("game"@, string_opt(p.game));
    let l = param("limit"@, number_opt(p.limit));
    let o = param("offset"@, number_opt(p.offset));
    lemma_param_contains("game"@, string_opt(p.game));
    lemma_param_contains("limit"@, number_opt(p.limit));
    lemma_param_contains("offset"@, number_opt(p.offset));
    lemma_query_concat_contains(g, l);
    lemma_query_concat_contains(g + l, o);
    assert(set_list_query(p) == g + l + o);
}

/// The request that lists sets across all games, or of one game.
pub fn sets_list_request(params: SetListParams) -> (r: ApiRequest)
    ensures
        is_request(&r, "/sets"@, set_list_query(params)),
{
    let ghost p = params;
    let mut q: Vec<(&'static str, String)> = Vec::new();
    push_param(&mut q, "game", params.game);
    push_number_param(&mut q, "limit", params.limit);
    push_number_param(&mut q, "offset", params.offset);
    assert(set_list_query(p) =~= param("game"@, string_opt(p.game)) + param(
        "limit"@,
        number_opt(p.limit),
    ) + param("offset"@, number_opt(p.offset)));
    ApiRequest { path: "/sets".to_owned(), query: q }
}

} // verus!
