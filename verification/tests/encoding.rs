use tcglookup::{decimal_string, parse_u32, trim_end_slashes, urlencode};

#[test]
fn urlencode_keeps_unreserved() {
    assert_eq!(urlencode("abc-XYZ_09.~"), "abc-XYZ_09.~");
}

#[test]
fn urlencode_keeps_uuid() {
    let id = "3f2b8c1e-9d4a-4e7b-8f00-123456789abc";
    assert_eq!(urlencode(id), id);
}

#[test]
fn urlencode_escapes_reserved() {
    assert_eq!(urlencode("a b/c?d"), "a%20b%2Fc%3Fd");
    assert_eq!(urlencode("%"), "%25");
}

#[test]
fn urlencode_escapes_utf8_bytes() {
    assert_eq!(urlencode("é"), "%C3%A9");
    assert_eq!(urlencode("\u{1F0CF}"), "%F0%9F%83%8F");
}

#[test]
fn urlencode_empty() {
    assert_eq!(urlencode(""), "");
}

#[test]
fn urlencode_round_trips_through_decoding() {
    let input = "Blue-Eyes White Dragon/LOB-001 é";
    let encoded = urlencode(input);
    let bytes = encoded.as_bytes();
    let mut decoded = Vec::new();
    let mut i = 0;
    while i < bytes.len() {
        if bytes[i] == b'%' {
            let hex = std::str::from_utf8(&bytes[i + 1..i + 3]).unwrap();
            decoded.push(u8::from_str_radix(hex, 16).unwrap());
            i += 3;
        } else {
            decoded.push(bytes[i]);
            i += 1;
        }
    }
    assert_eq!(decoded, input.as_bytes());
}

#[test]
fn decimal_string_values() {
    assert_eq!(decimal_string(0), "0");
    assert_eq!(decimal_string(7), "7");
    assert_eq!(decimal_string(42), "42");
    assert_eq!(decimal_string(1000), "1000");
    assert_eq!(decimal_string(u64::MAX), u64::MAX.to_string());
}

#[test]
fn parse_u32_accepts_numerals() {
    assert_eq!(parse_u32(b"123"), Some(123));
    assert_eq!(parse_u32(b"+7"), Some(7));
    assert_eq!(parse_u32(b"007"), Some(7));
    assert_eq!(parse_u32(b"0"), Some(0));
    assert_eq!(parse_u32(b"4294967295"), Some(u32::MAX));
}

#[test]
fn parse_u32_refuses_others() {
    assert_eq!(parse_u32(b""), None);
    assert_eq!(parse_u32(b"+"), None);
    assert_eq!(parse_u32(b"-1"), None);
    assert_eq!(parse_u32(b"4294967296"), None);
    assert_eq!(parse_u32(b"99999999999999999999"), None);
    assert_eq!(parse_u32(b"12a"), None);
    assert_eq!(parse_u32(b" 12"), None);
    assert_eq!(parse_u32(b"++1"), None);
}

#[test]
fn parse_u32_agrees_with_std() {
    let cases: [&str; 10] = ["1", "+1", "", "+", "-0", "4294967295", "4294967296", "00", "1 ", "x"];
    for c in cases {
        assert_eq!(parse_u32(c.as_bytes()), c.parse::<u32>().ok(), "case {:?}", c);
    }
}

#[test]
fn decimal_reads_back() {
    for n in [0u32, 1, 9, 10, 99, 100, 65535, 4294967295] {
        let s = decimal_string(n as u64);
        assert_eq!(parse_u32(s.as_bytes()), Some(n));
    }
}

#[test]
fn trim_end_slashes_cases() {
    assert_eq!(trim_end_slashes("https://x.test/v1/"), "https://x.test/v1");
    assert_eq!(trim_end_slashes("https://x.test///"), "https://x.test");
    assert_eq!(trim_end_slashes("https://x.test"), "https://x.test");
    assert_eq!(trim_end_slashes("///"), "");
    assert_eq!(trim_end_slashes(""), "");
    assert_eq!(trim_end_slashes("/é/"), "/é");
}

#[test]
fn trim_end_slashes_is_idempotent() {
    let once = trim_end_slashes("http://h//");
    assert_eq!(trim_end_slashes(&once), once);
}

#[test]
fn urlencode_of_concatenation() {
    let cases: [(&str, &str); 4] = [("ab", "c d"), ("", "é/"), ("x y", ""), ("Ω", "~-_")];
    for (a, b) in cases {
        let joined = a.to_string() + b;
        assert_eq!(urlencode(&joined), urlencode(a) + &urlencode(b));
    }
}
