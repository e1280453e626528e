use std::time::Duration;

use tcglookup::{
    cards_get_request, cards_history_request, cards_search_plan, cards_search_query,
    games_list_request, merge_chunked_search, request_url, sets_list_request, ApiRequest,
    CardSearchParams, ChunkStep, ChunkedSearch, ClientBuilder, GameListParams, HistoryParams,
    SearchPlan, SetListParams,
    DEFAULT_TIMEOUT_SECS, SEARCH_IDS_CHUNK_SIZE,
};

fn query(r: &ApiRequest) -> Vec<(String, String)> {
    r.query.iter().map(|(k, v)| (k.to_string(), v.clone())).collect()
}

fn pairs(p: &[(&str, &str)]) -> Vec<(String, String)> {
    p.iter().map(|(k, v)| (k.to_string(), v.to_string())).collect()
}

#[test]
fn builder_defaults() {
    let (key, base, ua, timeout) = ClientBuilder::new("tlk_test".to_string()).into_parts();
    assert_eq!(key, "tlk_test");
    assert_eq!(base, "https://api.tcgpricelookup.com/v1");
    assert_eq!(ua, "tcglookup-rs/0.1.0");
    assert_eq!(timeout, Duration::from_secs(DEFAULT_TIMEOUT_SECS));
    assert_eq!(DEFAULT_TIMEOUT_SECS, 30);
}

#[test]
fn builder_overrides() {
    let (key, base, ua, timeout) = ClientBuilder::new("k".to_string())
        .base_url("http://localhost:8080/v1//".to_string())
        .timeout(Duration::from_secs(60))
        .user_agent("my-app/1.0".to_string())
        .into_parts();
    assert_eq!(key, "k");
    assert_eq!(base, "http://localhost:8080/v1");
    assert_eq!(ua, "my-app/1.0");
    assert_eq!(timeout, Duration::from_secs(60));
}

#[test]
fn url_joins_base_and_path() {
    assert_eq!(request_url("https://h/v1", "/games"), "https://h/v1/games");
}

#[test]
fn games_list() {
    let r = games_list_request(GameListParams::default());
    assert_eq!(r.path, "/games");
    assert!(r.query.is_empty());
    let r = games_list_request(GameListParams { limit: Some(50), offset: Some(100) });
    assert_eq!(query(&r), pairs(&[("limit", "50"), ("offset", "100")]));
}

#[test]
fn sets_list() {
    let r = sets_list_request(SetListParams {
        game: Some("mtg".to_string()),
        limit: Some(50),
        ..Default::default()
    });
    assert_eq!(r.path, "/sets");
    assert_eq!(query(&r), pairs(&[("game", "mtg"), ("limit", "50")]));
}

#[test]
fn card_get_and_history() {
    let r = cards_get_request("abc 1");
    assert_eq!(r.path, "/cards/abc%201");
    assert!(r.query.is_empty());
    let r = cards_history_request("u-1", HistoryParams { period: Some("30d".to_string()) });
    assert_eq!(r.path, "/cards/u-1/history");
    assert_eq!(query(&r), pairs(&[("period", "30d")]));
    let r = cards_history_request("u-1", HistoryParams::default());
    assert!(r.query.is_empty());
}

#[test]
fn search_query_order() {
    let p = CardSearchParams {
        q: Some("charizard".to_string()),
        game: Some("pokemon".to_string()),
        set: Some("base".to_string()),
        limit: Some(5),
        offset: Some(0),
        ..Default::default()
    };
    let q = cards_search_query(&p, Some("a,b".to_string()));
    let got: Vec<(String, String)> = q.iter().map(|(k, v)| (k.to_string(), v.clone())).collect();
    assert_eq!(
        got,
        pairs(&[
            ("q", "charizard"),
            ("ids", "a,b"),
            ("game", "pokemon"),
            ("set", "base"),
            ("limit", "5"),
            ("offset", "0")
        ])
    );
}

#[test]
fn search_plan_without_ids() {
    let p = CardSearchParams { q: Some("x".to_string()), ..Default::default() };
    match cards_search_plan(&p) {
        SearchPlan::Single(r) => {
            assert_eq!(r.path, "/cards/search");
            assert_eq!(query(&r), pairs(&[("q", "x")]));
        }
        SearchPlan::Chunked(_) => panic!("expected one request"),
    }
    let p = CardSearchParams { ids: Some(Vec::new()), ..Default::default() };
    match cards_search_plan(&p) {
        SearchPlan::Single(r) => assert!(r.query.is_empty()),
        SearchPlan::Chunked(_) => panic!("expected one request"),
    }
}

#[test]
fn search_plan_few_ids() {
    let ids: Vec<String> = (0..20).map(|i| format!("id{}", i)).collect();
    let p = CardSearchParams { ids: Some(ids.clone()), ..Default::default() };
    match cards_search_plan(&p) {
        SearchPlan::Single(r) => assert_eq!(query(&r), vec![("ids".to_string(), ids.join(","))]),
        SearchPlan::Chunked(_) => panic!("expected one request"),
    }
}

#[test]
fn search_plan_chunks_ids() {
    let ids: Vec<String> = (0..45).map(|i| format!("id{}", i)).collect();
    let p = CardSearchParams { ids: Some(ids.clone()), limit: Some(10), ..Default::default() };
    match cards_search_plan(&p) {
        SearchPlan::Chunked(reqs) => {
            assert_eq!(reqs.len(), 3);
            for (r, chunk) in reqs.iter().zip(ids.chunks(SEARCH_IDS_CHUNK_SIZE)) {
                assert_eq!(r.path, "/cards/search");
                assert_eq!(
                    query(r),
                    vec![
                        ("ids".to_string(), chunk.join(",")),
                        ("limit".to_string(), "10".to_string())
                    ]
                );
            }
        }
        SearchPlan::Single(_) => panic!("expected chunked requests"),
    }
}

#[test]
fn search_plan_exactly_forty_ids() {
    let ids: Vec<String> = (0..40).map(|i| format!("{}", i)).collect();
    let p = CardSearchParams { ids: Some(ids), ..Default::default() };
    match cards_search_plan(&p) {
        SearchPlan::Chunked(reqs) => assert_eq!(reqs.len(), 2),
        SearchPlan::Single(_) => panic!("expected chunked requests"),
    }
}

#[test]
fn merge_pages_defaults() {
    let m = merge_chunked_search(vec![vec![1, 2], vec![], vec![3]], None, None);
    assert_eq!(m.data, vec![1, 2, 3]);
    assert_eq!(m.total, 3);
    assert_eq!(m.limit, 3);
    assert_eq!(m.offset, 0);
}

#[test]
fn merge_pages_given_limit_offset() {
    let m = merge_chunked_search(vec![vec!["a"], vec!["b", "c"]], Some(25), Some(5));
    assert_eq!(m.data, vec!["a", "b", "c"]);
    assert_eq!(m.total, 3);
    assert_eq!(m.limit, 25);
    assert_eq!(m.offset, 5);
}

#[test]
fn headers_of_every_request() {
    let h: Vec<(String, String)> = tcglookup::request_headers("tlk_key", "my-app/1.0")
        .into_iter()
        .map(|(k, v)| (k.to_string(), v))
        .collect();
    assert_eq!(
        h,
        pairs(&[
            ("X-API-Key", "tlk_key"),
            ("accept", "application/json"),
            ("user-agent", "my-app/1.0")
        ])
    );
}

fn chunk_requests(n: usize) -> Vec<ApiRequest> {
    let ids: Vec<String> = (0..n).map(|i| format!("{}", i)).collect();
    match cards_search_plan(&CardSearchParams { ids: Some(ids), ..Default::default() }) {
        SearchPlan::Chunked(reqs) => reqs,
        SearchPlan::Single(_) => panic!("expected chunked requests"),
    }
}

#[test]
fn chunked_search_sends_in_order_and_merges() {
    let requests = chunk_requests(45);
    let expected: Vec<Vec<(String, String)>> = requests.iter().map(query).collect();
    let mut search: ChunkedSearch<u32> = ChunkedSearch::new(requests, None, Some(3));
    let mut sent = Vec::new();
    let mut page_no = 0u32;
    let merged = loop {
        let r = search.next_request().expect("a pending request");
        sent.push(query(r));
        page_no += 1;
        search = match search.step::<String>(Ok(vec![page_no * 10, page_no * 10 + 1])) {
            ChunkStep::Next(s) => s,
            ChunkStep::Done(m) => break m,
            ChunkStep::Failed(_) => panic!("no failure was given"),
        };
    };
    assert_eq!(sent, expected);
    assert_eq!(merged.data, vec![10, 11, 20, 21, 30, 31]);
    assert_eq!(merged.total, 6);
    assert_eq!(merged.limit, 6);
    assert_eq!(merged.offset, 3);
}

#[test]
fn chunked_search_stops_at_first_failure() {
    let search: ChunkedSearch<u32> = ChunkedSearch::new(chunk_requests(45), None, None);
    let search = match search.step::<String>(Ok(vec![1])) {
        ChunkStep::Next(s) => s,
        _ => panic!("expected to go on"),
    };
    match search.step(Err("boom".to_string())) {
        ChunkStep::Failed(e) => assert_eq!(e, "boom"),
        _ => panic!("expected the failure"),
    }
}

#[test]
fn chunked_search_without_requests_finishes_empty() {
    let search: ChunkedSearch<u32> = ChunkedSearch::new(Vec::new(), Some(7), None);
    assert!(search.next_request().is_none());
    let m = search.finish();
    assert!(m.data.is_empty());
    assert_eq!(m.total, 0);
    assert_eq!(m.limit, 7);
    assert_eq!(m.offset, 0);
}
