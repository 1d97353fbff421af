//! Percent-encoding of URI components, as `urlencoding` performs it: over the
//! UTF-8 bytes of a string, every byte outside `A-Z a-z 0-9 - . _ ~` becomes
//! `%` followed by two upper-case hex digits.
use vstd::prelude::*;
use vstd::utf8::*;

verus! {

/// The bytes that stand for themselves in an encoded component.
pub open spec fn is_unreserved(b: u8) -> bool {
    ||| 0x30 <= b <= 0x39
    ||| 0x41 <= b <= 0x5a
    ||| 0x61 <= b <= 0x7a
    ||| b == 0x2d
    ||| b == 0x2e
    ||| b == 0x5f
    ||| b == 0x7e
}

/// The upper-case hex digit for `n < 16`.
pub open spec fn hex_digit(n: int) -> u8 {
    if n < 10 {
        (0x30 + n) as u8
    } else {
        (0x41 + n - 10) as u8
    }
}

/// The value of a hex digit of either case.
pub open spec fn hex_value(b: u8) -> Option<int> {
    if 0x30 <= b <= 0x39 {
        Some(b - 0x30)
    } else if 0x41 <= b <= 0x46 {
        Some(b - 0x41 + 10)
    } else if 0x61 <= b <= 0x66 {
        Some(b - 0x61 + 10)
    } else {
        None
    }
}

pub open spec fn escape_byte(b: u8) -> Seq<u8> {
    if is_unreserved(b) {
        seq![b]
    } else {
        seq![0x25u8, hex_digit(b as int / 16), hex_digit(b as int % 16)]
    }
}

/// Each byte escaped in turn.
pub open spec fn escape_bytes(b: Seq<u8>) -> Seq<u8>
    decreases b.len(),
{
    if b.len() == 0 {
        Seq::empty()
    } else {
        escape_byte(b[0]) + escape_bytes(b.drop_first())
    }
}

/// Each `%` followed by two hex digits read as the byte they spell; every
/// other byte, a `%` without two hex digits after it included, kept.
pub open spec fn unescape_bytes(b: Seq<u8>) -> Seq<u8>
    decreases b.len(),
{
    if b.len() == 0 {
        Seq::empty()
    } else if b[0] == 0x25 && b.len() >= 3 && hex_value(b[1]) is Some && hex_value(b[2]) is Some {
        seq![(hex_value(b[1])->0 * 16 + hex_value(b[2])->0) as u8] + unescape_bytes(
            b.subrange(3, b.len() as int),
        )
    } else {
        seq![b[0]] + unescape_bytes(b.drop_first())
    }
}

/// The percent-encoding of `s`.
pub open spec fn percent_encode(s: Seq<char>) -> Seq<char> {
    decode_utf8(escape_bytes(encode_utf8(s)))
}

/// The percent-decoding of `s`: `None` where the decoded bytes are not UTF-8.
pub open spec fn percent_decode(s: Seq<char>) -> Option<Seq<char>> {
    let d = unescape_bytes(encode_utf8(s));
    if valid_utf8(d) {
        Some(decode_utf8(d))
    } else {
        None
    }
}

pub open spec fn is_ascii_bytes(b: Seq<u8>) -> bool {
    forall|i: int| 0 <= i < b.len() ==> #[trigger] b[i] <= 0x7f
}

#[verifier::external_type_specification]
#[verifier::external_body]
pub struct ExFromUtf8Error(std::string::FromUtf8Error);

/// Relies on `urlencoding::encode`: the UTF-8 bytes of its result are those
/// of `s`, each escaped as `escape_byte` says.
#[verifier::external_body]
pub(crate) fn url_encode(s: &str) -> (r: String)
    ensures
        encode_utf8(r@) == escape_bytes(encode_utf8(s@)),
{
    urlencoding::encode(s).into_owned()
}

/// Relies on `urlencoding::decode`: the bytes of `s` unescaped as
/// `unescape_bytes` says, and an error where they are not UTF-8.
#[verifier::external_body]
pub(crate) fn url_decode(s: &str) -> (r: Result<String, std::string::FromUtf8Error>)
    ensures
        match r {
            Ok(t) => percent_decode(s@) == Some(t@),
            Err(_) => percent_decode(s@) is None,
        },
{
    urlencoding::decode(s).map(|t| t.into_owned())
}

/// The percent-encoding of `s`.
pub fn encode(s: &str) -> (r: String)
    ensures
        r@ == percent_encode(s@),
{
    let r = url_encode(s);
    proof {
        encode_utf8_decode_utf8(r@);
    }
    r
}

/// The percent-decoding of `s`, or `None` where the bytes it spells are not UTF-8.
pub fn decode(s: &str) -> (r: Option<String>)
    ensures
        match r {
            Some(t) => percent_decode(s@) == Some(t@),
            None => percent_decode(s@) is None,
        },
{
    match url_decode(s) {
        Ok(t) => Some(t),
        Err(_) => None,
    }
}

proof fn lemma_hex_round_trip(n: int)
    requires
        0 <= n < 16,
    ensures
        hex_value(hex_digit(n)) == Some(n),
{
}

/// Unescaping undoes escaping.
pub proof fn lemma_unescape_escape(b: Seq<u8>)
    ensures
        unescape_bytes(escape_bytes(b)) == b,
    decreases b.len(),
{
    if b.len() > 0 {
        let rest = b.drop_first();
        let e = escape_bytes(b);
        lemma_unescape_escape(rest);
        if is_unreserved(b[0]) {
            assert(e.drop_first() =~= escape_bytes(rest));
            assert(seq![b[0]] + rest =~= b);
        } else {
            let x = b[0] as int;
            lemma_hex_round_trip(x / 16);
            lemma_hex_round_trip(x % 16);
            assert(e.subrange(3, e.len() as int) =~= escape_bytes(rest));
            assert(((x / 16) * 16 + x % 16) as u8 == b[0]);
            assert(seq![b[0]] + rest =~= b);
        }
    }
}

/// Escaped bytes are unreserved bytes and `%`, all of them ASCII.
pub proof fn lemma_escape_ascii(b: Seq<u8>)
    ensures
        is_ascii_bytes(escape_bytes(b)),
        forall|i: int|
            0 <= i < escape_bytes(b).len() ==> is_unreserved(#[trigger] escape_bytes(b)[i])
                || escape_bytes(b)[i] == 0x25,
    decreases b.len(),
{
    if b.len() > 0 {
        lemma_escape_ascii(b.drop_first());
        let e = escape_bytes(b);
        let h = escape_byte(b[0]);
        assert forall|i: int| 0 <= i < e.len() implies #[trigger] e[i] <= 0x7f && (is_unreserved(
            e[i],
        ) || e[i] == 0x25) by {
            if i >= h.len() {
                assert(e[i] == escape_bytes(b.drop_first())[i - h.len()]);
            }
        }
    }
}

/// Encoded text holds only unreserved characters and `%`.
pub proof fn lemma_encoded_chars(s: Seq<char>)
    ensures
        forall|i: int|
            0 <= i < percent_encode(s).len() ==> {
                let u = (#[trigger] percent_encode(s)[i]) as u32;
                u < 128 && (is_unreserved(u as u8) || u == 0x25)
            },
{
    let e = escape_bytes(encode_utf8(s));
    lemma_escape_ascii(encode_utf8(s));
    lemma_ascii_utf8(e);
    assert forall|i: int| 0 <= i < percent_encode(s).len() implies {
        let u = (#[trigger] percent_encode(s)[i]) as u32;
        u < 128 && (is_unreserved(u as u8) || u == 0x25)
    } by {
        assert(percent_encode(s)[i] as u32 == e[i] as u32);
        assert(e[i] <= 0x7f);
    }
}

/// ASCII bytes are UTF-8, one character each.
pub proof fn lemma_ascii_utf8(b: Seq<u8>)
    requires
        is_ascii_bytes(b),
    ensures
        valid_utf8(b),
        decode_utf8(b).len() == b.len(),
        forall|i: int| 0 <= i < b.len() ==> #[trigger] decode_utf8(b)[i] as u32 == b[i] as u32,
    decreases b.len(),
{
    if b.len() > 0 {
        let b0 = b[0];
        assert(b0 <= 0x7f);
        assert(b0 & 0x7f == b0) by (bit_vector)
            requires
                b0 <= 0x7f,
        ;
        let rest = pop_first_scalar(b);
        assert(rest =~= b.drop_first());
        lemma_ascii_utf8(rest);
        let c = decode_first_scalar(b);
        assert(c == b0 as u32);
        assert((c as char) as u32 == c);
        let d = decode_utf8(b);
        assert forall|i: int| 0 <= i < b.len() implies #[trigger] d[i] as u32 == b[i] as u32 by {
            if i > 0 {
                assert(d[i] == decode_utf8(rest)[i - 1]);
                assert(b[i] == rest[i - 1]);
            }
        }
    }
}

/// Decoding an encoded string gives it back.
pub proof fn lemma_decode_encode(s: Seq<char>)
    ensures
        percent_decode(percent_encode(s)) == Some(s),
{
    let b = encode_utf8(s);
    let e = escape_bytes(b);
    lemma_escape_ascii(b);
    lemma_ascii_utf8(e);
    decode_utf8_encode_utf8(e);
    lemma_unescape_escape(b);
    encode_utf8_valid_utf8(s);
    encode_utf8_decode_utf8(s);
}

} // verus!
