//! Requests of the API's endpoint groups, built from their parameters.

pub mod cards;
pub mod games;
pub mod sets;

use vstd::prelude::*;
use vstd::string::StringExecFns;

use crate::text::{decimal, decimal_string};

verus! {

/// A GET request of the API: a path below the base URL and its query
/// parameters, in order.
pub struct ApiRequest {
    pub path: String,
    pub query: Vec<(&'static str, String)>,
}

/// The query parameters as key and value texts.
pub open spec fn query_view(q: Seq<(&'static str, String)>) -> Seq<(Seq<char>, Seq<char>)> {
    q.map_values(|p: (&'static str, String)| (p.0@, p.1@))
}

/// `r` is a request for this path with these query parameters.
pub open spec fn is_request(r: &ApiRequest, path: Seq<char>, query: Seq<(Seq<char>, Seq<char>)>) -> bool {
    r.path@ == path && query_view(r.query@) == query
}

/// The parameter `key=value` where there is a value, none where there is not.
pub open spec fn param(key: Seq<char>, value: Option<Seq<char>>) -> Seq<(Seq<char>, Seq<char>)> {
    match value {
        Some(v) => seq![(key, v)],
        None => seq![],
    }
}

/// The text of an optional string.
pub open spec fn string_opt(o: Option<String>) -> Option<Seq<char>> {
    match o {
        Some(s) => Some(s@),
        None => None,
    }
}

/// The decimal text of an optional number.
pub open spec fn number_opt(o: Option<u32>) -> Option<Seq<char>> {
    match o {
        Some(n) => Some(decimal(n as nat)),
        None => None,
    }
}

/// A pair is in two queries one after the other exactly when it is in one
/// of them.
pub proof fn lemma_query_concat_contains(
    a: Seq<(Seq<char>, Seq<char>)>,
    b: Seq<(Seq<char>, Seq<char>)>,
)
    ensures
        forall|x: (Seq<char>, Seq<char>)|
            #[trigger] (a + b).contains(x) <==> a.contains(x) || b.contains(x),
{
    assert forall|x: (Seq<char>, Seq<char>)|
        #[trigger] (a + b).contains(x) <==> a.contains(x) || b.contains(x) by {
        if a.contains(x) {
            let i = choose|i: int| 0 <= i < a.len() && a[i] == x;
            assert((a + b)[i] == x);
        }
        if b.contains(x) {
            let i = choose|i: int| 0 <= i < b.len() && b[i] == x;
            assert((a + b)[a.len() + i] == x);
        }
        if (a + b).contains(x) {
            let i = choose|i: int| 0 <= i < (a + b).len() && (a + b)[i] == x;
            if i < a.len() {
                assert(a[i] == x);
            } else {
                assert(b[i - a.len()] == x);
            }
        }
    }
}

/// An optional parameter holds the pair `(k, v)` exactly when `k` is its key
/// and `v` its value.
pub proof fn lemma_param_contains(key: Seq<char>, value: Option<Seq<char>>)
    ensures
        forall|x: (Seq<char>, Seq<char>)|
            #[trigger] param(key, value).contains(x) <==> x.0 == key && value == Some(x.1),
{
    assert forall|x: (Seq<char>, Seq<char>)|
        #[trigger] param(key, value).contains(x) <==> x.0 == key && value == Some(x.1) by {
        if x.0 == key && value == Some(x.1) {
            assert(param(key, value)[0] == x);
        }
    }
}

/// Appends `key=value` to a query where there is a value.
fn push_param(q: &mut Vec<(&'static str, String)>, key: &'static str, value: Option<String>)
    ensures
        query_view(final(q)@) == query_view(old(q)@) + param(key@, string_opt(value)),
{
    match value {
        Some(v) => {
            q.push((key, v));
        },
        None => {},
    }
    assert(query_view(q@) =~= query_view(old(q)@) + param(key@, string_opt(value)));
}

/// Appends `key=<decimal value>` to a query where there is a value.
fn push_number_param(q: &mut Vec<(&'static str, String)>, key: &'static str, value: Option<u32>)
    ensures
        query_view(final(q)@) == query_view(old(q)@) + param(key@, number_opt(value)),
{
    match value {
        Some(n) => {
            q.push((key, decimal_string(n as u64)));
        },
        None => {},
    }
    assert(query_view(q@) =~= query_view(old(q)@) + param(key@, number_opt(value)));
}

/// The URL of a request: the base URL followed by the path.
pub fn request_url(base_url: &str, path: &str) -> (url: String)
    ensures
        url@ == base_url@ + path@,
{
    let mut url = base_url.to_owned();
    url.append(path);
    url
}

/// The headers of every request, in order: the API key, `accept` asking for
/// JSON, and the User-Agent.
pub open spec fn headers_view(api_key: Seq<char>, user_agent: Seq<char>) -> Seq<(Seq<char>, Seq<char>)> {
    seq![
        ("X-API-Key"@, api_key),
        ("accept"@, "application/json"@),
        ("user-agent"@, user_agent),
    ]
}

/// The headers of every request: `X-API-Key` with the API key, `accept:
/// application/json`, and `user-agent` with the configured User-Agent.
pub fn request_headers(api_key: &str, user_agent: &str) -> (h: Vec<(&'static str, String)>)
    ensures
        query_view(h@) == headers_view(api_key@, user_agent@),
{
    let mut h: Vec<(&'static str, String)> = Vec::new();
    h.push(("X-API-Key", api_key.to_owned()));
    h.push(("accept", "application/json".to_owned()));
    h.push(("user-agent", user_agent.to_owned()));
    assert(query_view(h@) =~= headers_view(api_key@, user_agent@));
    h
}

} // verus!
