use tcglookup::{
    capture_rate_limit, check_response, from_response, header_value_u32, is_success,
    response_message, Error, RateLimitInfo,
};

fn parts(e: &Error) -> (Option<u16>, String, String) {
    match e {
        Error::Authentication { message, body }
        | Error::PlanAccess { message, body }
        | Error::NotFound { message, body }
        | Error::RateLimit { message, body }
        | Error::Api { message, body, .. } => (e.status(), message.clone(), body.clone()),
        _ => (e.status(), String::new(), String::new()),
    }
}

#[test]
fn from_response_variants() {
    let e = from_response(401, "b".to_string(), Some("bad key".to_string()));
    assert!(matches!(e, Error::Authentication { .. }));
    assert_eq!(parts(&e), (Some(401), "bad key".to_string(), "b".to_string()));

    let e = from_response(403, String::new(), None);
    assert!(matches!(e, Error::PlanAccess { .. }));
    assert_eq!(parts(&e), (Some(403), "HTTP 403".to_string(), String::new()));

    let e = from_response(404, String::new(), None);
    assert!(matches!(e, Error::NotFound { .. }));

    let e = from_response(429, String::new(), None);
    assert!(matches!(e, Error::RateLimit { .. }));

    let e = from_response(500, "oops".to_string(), None);
    assert!(matches!(e, Error::Api { status: 500, .. }));
    assert_eq!(parts(&e), (Some(500), "HTTP 500".to_string(), "oops".to_string()));
}

#[test]
fn status_of_response_errors_is_the_status() {
    for s in [0u16, 1, 99, 200, 302, 400, 401, 403, 404, 418, 429, 500, 503, 65535] {
        assert_eq!(from_response(s, String::new(), None).status(), Some(s));
    }
}

#[test]
fn status_of_decode_error_is_none() {
    let err = serde_json::from_str::<u32>("x").unwrap_err();
    assert_eq!(Error::Decode(err).status(), None);
}

#[test]
fn response_message_default() {
    assert_eq!(response_message(502, None), "HTTP 502");
    assert_eq!(response_message(7, None), "HTTP 7");
    assert_eq!(response_message(502, Some("down".to_string())), "down");
}

#[test]
fn is_success_bounds() {
    assert!(!is_success(199));
    assert!(is_success(200));
    assert!(is_success(204));
    assert!(is_success(299));
    assert!(!is_success(300));
    assert!(!is_success(404));
}

#[test]
fn check_response_ok() {
    let r = check_response(200, "{\"a\":1}".to_string(), None);
    assert_eq!(r.unwrap(), "{\"a\":1}");
}

#[test]
fn check_response_empty_body() {
    let r = check_response(204, String::new(), None);
    assert_eq!(r.unwrap(), "");
    let r = check_response(200, String::new(), Some("ignored".to_string()));
    assert_eq!(r.unwrap(), "");
}

#[test]
fn check_response_failure() {
    match check_response(403, "{\"error\":\"upgrade\"}".to_string(), Some("upgrade".to_string())) {
        Err(Error::PlanAccess { message, body }) => {
            assert_eq!(message, "upgrade");
            assert_eq!(body, "{\"error\":\"upgrade\"}");
        }
        other => panic!("unexpected {:?}", other),
    }
    match check_response(500, String::new(), None) {
        Err(e) => assert_eq!(e.status(), Some(500)),
        Ok(_) => panic!("expected an error"),
    }
}

#[test]
fn header_values() {
    assert_eq!(header_value_u32(b"100"), Some(100));
    assert_eq!(header_value_u32(b"\t100"), None);
    assert_eq!(header_value_u32(b"1\x80"), None);
    assert_eq!(header_value_u32(b""), None);
}

#[test]
fn capture_rate_limit_sets_and_clears() {
    let mut info = RateLimitInfo::default();
    assert_eq!(info.limit, None);
    assert_eq!(info.remaining, None);
    capture_rate_limit(&mut info, Some(b"1000"), Some(b"998"));
    assert_eq!(info.limit, Some(1000));
    assert_eq!(info.remaining, Some(998));
    capture_rate_limit(&mut info, None, Some(b"nope"));
    assert_eq!(info.limit, None);
    assert_eq!(info.remaining, None);
}

#[test]
fn error_texts() {
    let e = from_response(500, String::new(), Some("boom".to_string()));
    assert_eq!(e.to_string(), "api error (HTTP 500): boom");
    let e = from_response(401, String::new(), None);
    assert_eq!(e.to_string(), "authentication failed: HTTP 401");
    let e = from_response(403, String::new(), Some("upgrade".to_string()));
    assert_eq!(e.to_string(), "plan access denied: upgrade");
    let e = from_response(404, String::new(), Some("gone".to_string()));
    assert_eq!(e.to_string(), "not found: gone");
    let e = from_response(429, String::new(), Some("slow".to_string()));
    assert_eq!(e.to_string(), "rate limited: slow");
    let inner = serde_json::from_str::<u32>("x").unwrap_err();
    let expected = format!("decode error: {}", inner);
    assert_eq!(Error::Decode(inner).to_string(), expected);
}
