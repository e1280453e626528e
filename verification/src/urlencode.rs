//! Percent-encoding of one URL path segment.

use vstd::prelude::*;

use vstd::utf8::{encode_utf8, is_ascii_chars, is_ascii_chars_encode_utf8};

use crate::text::{hex_digit, hex_digit_char, push_char};

verus! {

/// Bytes that stand for themselves in a path segment: ASCII letters and
/// digits, `-`, `_`, `.` and `~`.
pub open spec fn is_unreserved(b: u8) -> bool {
    ||| 48 <= b <= 57
    ||| 65 <= b <= 90
    ||| 97 <= b <= 122
    ||| b == 45
    ||| b == 95
    ||| b == 46
    ||| b == 126
}

/// The text that one byte becomes: itself when unreserved, else `%` and two
/// upper case hexadecimal digits.
pub open spec fn encode_byte(b: u8) -> Seq<char> {
    if is_unreserved(b) {
        seq![b as char]
    } else {
        seq!['%', hex_digit((b / 16) as int), hex_digit((b % 16) as int)]
    }
}

/// The percent-encoding of a byte string, byte by byte.
pub open spec fn percent_encode(bytes: Seq<u8>) -> Seq<char>
    decreases bytes.len(),
{
    if bytes.len() == 0 {
        seq![]
    } else {
        percent_encode(bytes.drop_last()) + encode_byte(bytes.last())
    }
}

/// The value of a hexadecimal digit, of either case.
pub open spec fn hex_value(c: char) -> Option<int> {
    if '0' <= c <= '9' {
        Some(c as int - '0' as int)
    } else if 'A' <= c <= 'F' {
        Some(c as int - 'A' as int + 10)
    } else if 'a' <= c <= 'f' {
        Some(c as int - 'a' as int + 10)
    } else {
        None
    }
}

/// Percent-decoding: `%` and two hexadecimal digits give one byte, any other
/// character gives its own code.
pub open spec fn percent_decode(chars: Seq<char>) -> Seq<u8>
    decreases chars.len(),
{
    if chars.len() == 0 {
        seq![]
    } else if chars[0] == '%' && chars.len() >= 3 && hex_value(chars[1]) is Some
        && hex_value(chars[2]) is Some {
        seq![(hex_value(chars[1]).unwrap() * 16 + hex_value(chars[2]).unwrap()) as u8]
            + percent_decode(chars.skip(3))
    } else {
        seq![chars[0] as u8] + percent_decode(chars.skip(1))
    }
}

/// Whether a byte stands for itself in a path segment.
pub fn is_unreserved_byte(b: u8) -> (r: bool)
    ensures
        r == is_unreserved(b),
{
    (48 <= b && b <= 57) || (65 <= b && b <= 90) || (97 <= b && b <= 122) || b == 45 || b == 95
        || b == 46 || b == 126
}

/// Percent-encodes `s` for use as one path segment: each byte of its UTF-8
/// form that is an ASCII letter or digit or one of `-_.~` is kept, every
/// other byte becomes `%` and two upper case hexadecimal digits.
pub fn urlencode(s: &str) -> (out: String)
    ensures
        out@ == percent_encode(encode_utf8(s@)),
{
    let bytes = s.as_bytes();
    let mut out = String::new();
    let mut i: usize = 0;
    while i < bytes.len()
        invariant
            0 <= i <= bytes@.len(),
            bytes@ == encode_utf8(s@),
            out@ == percent_encode(bytes@.take(i as int)),
        decreases bytes@.len() - i,
    {
        let b = bytes[i];
        if is_unreserved_byte(b) {
            push_char(&mut out, b as char);
        } else {
            push_char(&mut out, '%');
            push_char(&mut out, hex_digit_char(b / 16));
            push_char(&mut out, hex_digit_char(b % 16));
        }
        assert(bytes@.take(i + 1).drop_last() =~= bytes@.take(i as int));
        assert(out@ =~= percent_encode(bytes@.take(i + 1)));
        i += 1;
    }
    assert(bytes@.take(bytes@.len() as int) =~= bytes@);
    out
}

proof fn lemma_encode_first(bytes: Seq<u8>)
    requires
        bytes.len() > 0,
    ensures
        percent_encode(bytes) =~= encode_byte(bytes[0]) + percent_encode(bytes.skip(1)),
    decreases bytes.len(),
{
    if bytes.len() > 1 {
        lemma_encode_first(bytes.drop_last());
        assert(bytes.drop_last().skip(1) =~= bytes.skip(1).drop_last());
        assert(bytes.drop_last()[0] == bytes[0]);
        assert(bytes.skip(1).last() == bytes.last());
    } else {
        assert(bytes.drop_last() =~= Seq::<u8>::empty());
        assert(bytes.skip(1) =~= Seq::<u8>::empty());
    }
}

proof fn lemma_hex_roundtrip(d: int)
    requires
        0 <= d < 16,
    ensures
        hex_value(hex_digit(d)) == Some(d),
{
}

/// Decoding undoes encoding: percent-decoding what `percent_encode` made of
/// a byte string gives back exactly those bytes.
pub proof fn lemma_decode_undoes_encode(bytes: Seq<u8>)
    ensures
        percent_decode(percent_encode(bytes)) == bytes,
    decreases bytes.len(),
{
    if bytes.len() == 0 {
        assert(percent_encode(bytes) =~= Seq::<char>::empty());
    } else {
        let b = bytes[0];
        let rest = bytes.skip(1);
        lemma_encode_first(bytes);
        lemma_decode_undoes_encode(rest);
        let enc = percent_encode(bytes);
        if is_unreserved(b) {
            assert(enc[0] == b as char);
            assert(enc.skip(1) =~= percent_encode(rest));
        } else {
            lemma_hex_roundtrip((b / 16) as int);
            lemma_hex_roundtrip((b % 16) as int);
            assert(enc[0] == '%');
            assert(enc[1] == hex_digit((b / 16) as int));
            assert(enc[2] == hex_digit((b % 16) as int));
            assert(enc.skip(3) =~= percent_encode(rest));
        }
        assert(percent_decode(enc) =~= bytes);
    }
}

proof fn lemma_unreserved_bytes_pass_through(bytes: Seq<u8>)
    requires
        forall|i: int| 0 <= i < bytes.len() ==> is_unreserved(#[trigger] bytes[i]),
    ensures
        percent_encode(bytes) =~= Seq::new(bytes.len(), |i: int| bytes[i] as char),
    decreases bytes.len(),
{
    if bytes.len() > 0 {
        let init = bytes.drop_last();
        assert forall|i: int| 0 <= i < init.len() implies is_unreserved(#[trigger] init[i]) by {
            assert(init[i] == bytes[i]);
        }
        lemma_unreserved_bytes_pass_through(init);
        assert(is_unreserved(bytes[bytes.len() - 1]));
    }
}

/// Text made only of unreserved ASCII characters passes through unchanged:
/// such an identifier (a UUID, say) is its own encoding.
pub proof fn lemma_unreserved_pass_through(chars: Seq<char>)
    requires
        is_ascii_chars(chars),
        forall|i: int| 0 <= i < chars.len() ==> is_unreserved(#[trigger] chars[i] as u8),
    ensures
        percent_encode(encode_utf8(chars)) == chars,
{
    let bytes = encode_utf8(chars);
    is_ascii_chars_encode_utf8(chars);
    assert forall|i: int| 0 <= i < bytes.len() implies is_unreserved(#[trigger] bytes[i]) by {
        assert(chars[i] as u8 == bytes[i]);
    }
    lemma_unreserved_bytes_pass_through(bytes);
    assert forall|i: int| 0 <= i < chars.len() implies (bytes[i] as char) == chars[i] by {
        assert(chars[i] as u8 == bytes[i]);
        assert('\0' <= chars[i] <= '\u{7f}');
    }
    assert(Seq::new(bytes.len(), |i: int| bytes[i] as char) =~= chars);
}

/// Encoding goes byte by byte, with no regard to position: the encoding of
/// two byte strings one after the other is their encodings one after the other.
pub proof fn lemma_percent_encode_concat(a: Seq<u8>, b: Seq<u8>)
    ensures
        percent_encode(a + b) == percent_encode(a) + percent_encode(b),
    decreases b.len(),
{
    if b.len() == 0 {
        assert(a + b =~= a);
        assert(percent_encode(a) + percent_encode(b) =~= percent_encode(a));
    } else {
        lemma_percent_encode_concat(a, b.drop_last());
        assert((a + b).drop_last() =~= a + b.drop_last());
        assert((a + b).last() == b.last());
        assert(percent_encode(a + b) =~= percent_encode(a) + percent_encode(b));
    }
}

proof fn lemma_encode_utf8_concat(a: Seq<char>, b: Seq<char>)
    ensures
        encode_utf8(a + b) == encode_utf8(a) + encode_utf8(b),
    decreases a.len(),
{
    if a.len() == 0 {
        assert(a + b =~= b);
        assert(encode_utf8(a) + encode_utf8(b) =~= encode_utf8(b));
    } else {
        lemma_encode_utf8_concat(a.drop_first(), b);
        assert((a + b).drop_first() =~= a.drop_first() + b);
        assert((a + b)[0] == a[0]);
        assert(encode_utf8(a + b) =~= encode_utf8(a) + encode_utf8(b));
    }
}

/// `urlencode` of two texts one after the other is their encodings one after
/// the other: the encoding of the UTF-8 form of `a + b` is the encoding of
/// `a` followed by that of `b`.
pub proof fn lemma_urlencode_concat(a: Seq<char>, b: Seq<char>)
    ensures
        percent_encode(encode_utf8(a + b)) == percent_encode(encode_utf8(a)) + percent_encode(
            encode_utf8(b),
        ),
{
    lemma_encode_utf8_concat(a, b);
    lemma_percent_encode_concat(encode_utf8(a), encode_utf8(b));
}

/// An ASCII letter or digit, or one of `-`, `_`, `.` and `~`.
pub open spec fn is_letter_digit_or_mark(c: char) -> bool {
    ||| '0' <= c <= '9'
    ||| 'A' <= c <= 'Z'
    ||| 'a' <= c <= 'z'
    ||| c == '-'
    ||| c == '_'
    ||| c == '.'
    ||| c == '~'
}

/// One byte's encoding: an ASCII letter or digit or one of `-_.~` stays
/// itself, any other byte (`#`, `?`, `/`, `%`, space, every non-ASCII byte)
/// becomes `%` and its two upper case hexadecimal digits.
pub proof fn lemma_encode_one_byte(b: u8)
    ensures
        is_letter_digit_or_mark(b as char) ==> percent_encode(seq![b]) == seq![b as char],
        !is_letter_digit_or_mark(b as char) ==> percent_encode(seq![b]) == seq![
            '%',
            hex_digit((b / 16) as int),
            hex_digit((b % 16) as int),
        ],
{
    assert(seq![b].drop_last() =~= Seq::<u8>::empty());
    assert(seq![b].last() == b);
    assert(percent_encode(Seq::<u8>::empty()) =~= Seq::<char>::empty());
    assert(percent_encode(seq![b]) == percent_encode(seq![b].drop_last()) + encode_byte(b));
    assert(percent_encode(seq![b]) =~= encode_byte(b));
}

/// An encoding holds only ASCII letters and digits, `-_.~` and `%`: no `#`,
/// `?`, `/` or space ever reaches a path through it.
pub proof fn lemma_encoding_alphabet(bytes: Seq<u8>)
    ensures
        forall|i: int|
            0 <= i < percent_encode(bytes).len() ==> is_letter_digit_or_mark(
                #[trigger] percent_encode(bytes)[i],
            ) || percent_encode(bytes)[i] == '%',
    decreases bytes.len(),
{
    if bytes.len() > 0 {
        let init = bytes.drop_last();
        lemma_encoding_alphabet(init);
        let b = bytes.last();
        let e = encode_byte(b);
        assert forall|i: int| 0 <= i < e.len() implies is_letter_digit_or_mark(#[trigger] e[i])
            || e[i] == '%' by {
            if !is_unreserved(b) {
                assert(0 <= b / 16 < 16);
                assert(0 <= b % 16 < 16);
            }
        }
        let out = percent_encode(bytes);
        assert(out == percent_encode(init) + e);
        assert forall|i: int| 0 <= i < out.len() implies is_letter_digit_or_mark(#[trigger] out[i])
            || out[i] == '%' by {
            if i < percent_encode(init).len() {
                assert(out[i] == percent_encode(init)[i]);
            } else {
                assert(out[i] == e[i - percent_encode(init).len()]);
            }
        }
    }
}

} // verus!
