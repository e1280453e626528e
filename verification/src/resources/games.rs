//! Operations on games.

use vstd::prelude::*;

use super::{
    is_request, lemma_param_contains, lemma_query_concat_contains, number_opt, param,
    push_number_param, ApiRequest,
};
use crate::text::decimal;

verus! {

/// Parameters for listing games.
#[derive(Debug, Clone)]
pub struct GameListParams {
    pub limit: Option<u32>,
    pub offset: Option<u32>,
}

impl Default for GameListParams {
    fn default() -> (p: Self)
        ensures
            p.limit is None,
            p.offset is None,
    {
        GameListParams { limit: None, offset: None }
    }
}

/// The query of a game list: `limit` and `offset` where given.
pub open spec fn game_list_query(p: GameListParams) -> Seq<(Seq<char>, Seq<char>)> {
    param("limit"@, number_opt(p.limit)) + param("offset"@, number_opt(p.offset))
}

/// A game list asks for `limit=<n>` exactly when a limit `n` is given and for
/// `offset=<n>` exactly when an offset `n` is given, each whatever the other
/// is, and asks for nothing else.
pub proof fn lemma_game_list_query(p: GameListParams, k: Seq<char>, v: Seq<char>)
    ensures
        game_list_query(p).contains(("limit"@, v)) <==> (p.limit matches Some(n) && v == decimal(
            n as nat,
        )),
        game_list_query(p).contains(("offset"@, v)) <==> (p.offset matches Some(n) && v == decimal(
            n as nat,
        )),
        game_list_query(p).contains((k, v)) ==> k == "limit"@ || k == "offset"@,
        game_list_query(p).len() <= 2,
{
    reveal_strlit("limit");
    reveal_strlit("offset");
    assert("limit"@.len() == 5);
    assert("offset"@.len() == 6);
    lemma_param_contains("limit"@, number_opt(p.limit));
    lemma_param_contains("offset"@, number_opt(p.offset));
    lemma_query_concat_contains(
        param("limit"@, number_opt(p.limit)),
        param("offset"@, number_opt(p.offset)),
    );
}

/// The request that lists every supported trading card game.
pub fn games_list_request(params: GameListParams) -> (r: ApiRequest)
    ensures
        is_request(&r, "/games"@, game_list_query(params)),
{
    let mut q: Vec<(&'static str, String)> = Vec::new();
    push_number_param(&mut q, "limit", params.limit);
    push_number_param(&mut q, "offset", params.offset);
    ApiRequest { path: "/games".to_owned(), query: q }
}

} // verus!
