//! Rate-limit window state and the reading of its response headers.

use vstd::prelude::*;

use crate::text::decimal;

verus! {

/// Rate-limit window state captured from the most recent response.
#[derive(Debug, Clone, Copy)]
pub struct RateLimitInfo {
    pub limit: Option<u32>,
    pub remaining: Option<u32>,
}

impl Default for RateLimitInfo {
    fn default() -> (r: Self)
        ensures
            r.limit is None,
            r.remaining is None,
    {
        RateLimitInfo { limit: None, remaining: None }
    }
}

/// A byte that a header value may hold and still be read as text: visible
/// ASCII or a horizontal tab.
pub open spec fn is_visible_ascii(b: u8) -> bool {
    (32 <= b && b < 127) || b == 9
}

/// An ASCII decimal digit.
pub open spec fn is_digit(b: u8) -> bool {
    48 <= b <= 57
}

/// The number that a string of ASCII decimal digits denotes.
pub open spec fn digits_value(s: Seq<u8>) -> nat
    decreases s.len(),
{
    if s.len() == 0 {
        0
    } else {
        digits_value(s.drop_last()) * 10 + (s.last() - 48) as nat
    }
}

/// The digits of an unsigned numeral: the text after one optional leading `+`.
pub open spec fn unsigned_digits(s: Seq<u8>) -> Seq<u8> {
    if s.len() > 0 && s[0] == 43 {
        s.skip(1)
    } else {
        s
    }
}

/// What `u32::from_str` reads from a text: an optional `+` and then one or
/// more decimal digits whose value fits in a `u32`; anything else is refused.
pub open spec fn parse_u32_spec(s: Seq<u8>) -> Option<u32> {
    let d = unsigned_digits(s);
    if d.len() > 0 && (forall|i: int| 0 <= i < d.len() ==> is_digit(#[trigger] d[i]))
        && digits_value(d) <= u32::MAX {
        Some(digits_value(d) as u32)
    } else {
        None
    }
}

/// The number a rate-limit header holds: the value must be visible ASCII
/// (else it is no text at all) and then a `u32` numeral.
pub open spec fn header_u32(raw: Seq<u8>) -> Option<u32> {
    if forall|i: int| 0 <= i < raw.len() ==> is_visible_ascii(#[trigger] raw[i]) {
        parse_u32_spec(raw)
    } else {
        None
    }
}

/// What an optional header gives: nothing when it is absent.
pub open spec fn optional_header_u32(raw: Option<Seq<u8>>) -> Option<u32> {
    match raw {
        Some(r) => header_u32(r),
        None => None,
    }
}

/// Reads a `u32` from its decimal text as `str::parse::<u32>` does.
pub fn parse_u32(s: &[u8]) -> (r: Option<u32>)
    ensures
        r == parse_u32_spec(s@),
{
    let start: usize = if s.len() > 0 && s[0] == 43 {
        1
    } else {
        0
    };
    let ghost d = unsigned_digits(s@);
    assert(d =~= s@.subrange(start as int, s@.len() as int));
    if start >= s.len() {
        return None;
    }
    let mut value: u64 = 0;
    let mut overflow = false;
    let mut i: usize = start;
    while i < s.len()
        invariant
            start <= i <= s@.len(),
            d == unsigned_digits(s@),
            d =~= s@.subrange(start as int, s@.len() as int),
            forall|j: int| start <= j < i ==> is_digit(#[trigger] s@[j]),
            !overflow ==> value == digits_value(s@.subrange(start as int, i as int)) && value
                <= u32::MAX,
            overflow ==> digits_value(s@.subrange(start as int, i as int)) > u32::MAX,
        decreases s@.len() - i,
    {
        let b = s[i];
        if b < 48 || b > 57 {
            assert(d[i - start] == s@[i as int]);
            assert(!is_digit(d[i - start]));
            return None;
        }
        let ghost prev = s@.subrange(start as int, i as int);
        assert(s@.subrange(start as int, i + 1).drop_last() =~= prev);
        if !overflow {
            let next = value * 10 + (b - 48) as u64;
            if next > 4294967295 {
                overflow = true;
            } else {
                value = next;
            }
        }
        i += 1;
    }
    assert(s@.subrange(start as int, s@.len() as int) =~= d);
    assert forall|j: int| 0 <= j < d.len() implies is_digit(#[trigger] d[j]) by {
        assert(d[j] == s@[start + j]);
    }
    if overflow {
        None
    } else {
        Some(value as u32)
    }
}

/// Reads a rate-limit header value: `None` unless it is visible ASCII text
/// holding a `u32` numeral.
pub fn header_value_u32(raw: &[u8]) -> (r: Option<u32>)
    ensures
        r == header_u32(raw@),
{
    let mut i: usize = 0;
    while i < raw.len()
        invariant
            0 <= i <= raw@.len(),
            forall|j: int| 0 <= j < i ==> is_visible_ascii(#[trigger] raw@[j]),
        decreases raw@.len() - i,
    {
        let b = raw[i];
        if !((32 <= b && b < 127) || b == 9) {
            return None;
        }
        i += 1;
    }
    parse_u32(raw)
}

/// Records the rate-limit window from the `x-ratelimit-limit` and
/// `x-ratelimit-remaining` header values of a response; an absent or
/// unreadable header clears its field.
pub fn capture_rate_limit(info: &mut RateLimitInfo, limit: Option<&[u8]>, remaining: Option<&[u8]>)
    ensures
        final(info).limit == optional_header_u32(
            match limit {
                Some(r) => Some(r@),
                None => None,
            },
        ),
        final(info).remaining == optional_header_u32(
            match remaining {
                Some(r) => Some(r@),
                None => None,
            },
        ),
{
    info.limit = match limit {
        Some(r) => header_value_u32(r),
        None => None,
    };
    info.remaining = match remaining {
        Some(r) => header_value_u32(r),
        None => None,
    };
}

/// The ASCII bytes of a decimal numeral.
pub open spec fn decimal_bytes(n: nat) -> Seq<u8> {
    decimal(n).map_values(|c: char| c as u8)
}

proof fn lemma_decimal_digits(n: nat)
    ensures
        decimal_bytes(n).len() > 0,
        forall|i: int| 0 <= i < decimal_bytes(n).len() ==> is_digit(#[trigger] decimal_bytes(n)[i]),
        digits_value(decimal_bytes(n)) == n,
    decreases n,
{
    if n >= 10 {
        lemma_decimal_digits(n / 10);
        let d = (n % 10) as int;
        let c = ('0' as int + d) as char;
        assert(c as u8 == 48 + d);
        assert(decimal_bytes(n) =~= decimal_bytes(n / 10).push(c as u8));
        assert(decimal_bytes(n).drop_last() =~= decimal_bytes(n / 10));
        assert(decimal_bytes(n).last() == 48 + d);
        assert(n == (n / 10) * 10 + d);
    } else {
        let c = ('0' as int + n) as char;
        assert(c as u8 == 48 + n);
        assert(decimal_bytes(n) =~= seq![c as u8]);
        assert(decimal_bytes(n).drop_last() =~= Seq::<u8>::empty());
        assert(digits_value(Seq::<u8>::empty()) == 0);
    }
}

/// Reading back a written number: the decimal numeral of any `u32` (as query
/// parameters carry it) parses, header-style, to that same number.
pub proof fn lemma_parse_reads_decimal(n: u32)
    ensures
        parse_u32_spec(decimal_bytes(n as nat)) == Some(n),
        header_u32(decimal_bytes(n as nat)) == Some(n),
{
    lemma_decimal_digits(n as nat);
    let b = decimal_bytes(n as nat);
    assert(is_digit(b[0]));
    assert(unsigned_digits(b) == b);
    assert forall|i: int| 0 <= i < b.len() implies is_visible_ascii(#[trigger] b[i]) by {
        assert(is_digit(b[i]));
    }
}

} // verus!
