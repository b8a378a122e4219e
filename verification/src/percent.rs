use vstd::prelude::*;
use vstd::utf8::{decode_utf8, encode_utf8, encode_utf8_decode_utf8, encode_utf8_valid_utf8, valid_utf8};

use crate::utf8_facts::lemma_encoding_avoids;

verus! {

/// The byte `%` that opens an escape.
pub const PERCENT: u8 = 37;

/// An ASCII hexadecimal digit: `0`-`9`, `A`-`F` or `a`-`f`.
pub open spec fn is_hex_digit(b: u8) -> bool {
    (48 <= b <= 57) || (65 <= b <= 70) || (97 <= b <= 102)
}

/// The value of a hexadecimal digit.
pub open spec fn hex_value(b: u8) -> nat
    recommends
        is_hex_digit(b),
{
    if b <= 57 {
        (b - 48) as nat
    } else if b <= 70 {
        (b - 55) as nat
    } else {
        (b - 87) as nat
    }
}

/// `b` starts with an escape: `%` followed by two hexadecimal digits.
pub open spec fn starts_with_escape(b: Seq<u8>) -> bool {
    &&& b.len() >= 3
    &&& b[0] == PERCENT
    &&& is_hex_digit(b[1])
    &&& is_hex_digit(b[2])
}

/// `b` with each `%XX` escape replaced by the byte that `XX` denotes in
/// hexadecimal, scanning from the left; any other byte, a `%` that does not
/// open an escape among them, stays as it is.
pub open spec fn percent_decode(b: Seq<u8>) -> Seq<u8>
    decreases b.len(),
{
    if b.len() == 0 {
        seq![]
    } else if starts_with_escape(b) {
        seq![(hex_value(b[1]) * 16 + hex_value(b[2])) as u8] + percent_decode(
            b.subrange(3, b.len() as int),
        )
    } else {
        seq![b[0]] + percent_decode(b.subrange(1, b.len() as int))
    }
}

/// `u8::is_ascii_hexdigit`.
fn is_ascii_hexdigit(b: u8) -> (r: bool)
    ensures
        r == is_hex_digit(b),
{
    (48 <= b && b <= 57) || (65 <= b && b <= 70) || (97 <= b && b <= 102)
}

fn hex_digit_value(b: u8) -> (v: u8)
    requires
        is_hex_digit(b),
    ensures
        v == hex_value(b),
        v < 16,
{
    if b <= 57 {
        b - 48
    } else if b <= 70 {
        b - 55
    } else {
        b - 87
    }
}

/// The bytes of `bytes` with their `%XX` escapes decoded.
pub fn decode_percent_escapes(bytes: &[u8]) -> (out: Vec<u8>)
    ensures
        out@ == percent_decode(bytes@),
{
    let len = bytes.len();
    let mut out: Vec<u8> = Vec::new();
    let mut ix: usize = 0;
    assert(bytes@.subrange(0, len as int) =~= bytes@);
    assert(out@ + percent_decode(bytes@) =~= percent_decode(bytes@));
    while ix < len
        invariant
            len == bytes@.len(),
            ix <= len,
            out@ + percent_decode(bytes@.subrange(ix as int, len as int)) == percent_decode(
                bytes@,
            ),
        decreases len - ix,
    {
        let ghost rest = bytes@.subrange(ix as int, len as int);
        let ghost before = out@;
        let byte = bytes[ix];
        if byte == PERCENT && len - ix >= 3 && is_ascii_hexdigit(bytes[ix + 1])
            && is_ascii_hexdigit(bytes[ix + 2]) {
            let hi = hex_digit_value(bytes[ix + 1]);
            let lo = hex_digit_value(bytes[ix + 2]);
            out.push(hi * 16 + lo);
            proof {
                assert(starts_with_escape(rest));
                assert(rest.subrange(3, rest.len() as int) =~= bytes@.subrange(
                    ix + 3,
                    len as int,
                ));
                assert(out@ + percent_decode(bytes@.subrange(ix + 3, len as int)) =~= before
                    + percent_decode(rest));
            }
            ix = ix + 3;
        } else {
            out.push(byte);
            proof {
                assert(!starts_with_escape(rest));
                assert(rest.subrange(1, rest.len() as int) =~= bytes@.subrange(
                    ix + 1,
                    len as int,
                ));
                assert(out@ + percent_decode(bytes@.subrange(ix + 1, len as int)) =~= before
                    + percent_decode(rest));
            }
            ix = ix + 1;
        }
    }
    assert(bytes@.subrange(len as int, len as int) =~= Seq::<u8>::empty());
    assert(out@ =~= percent_decode(bytes@));
    out
}

/// `String::from_utf8`, with its error dropped: the string is there exactly
/// when the bytes are well-formed UTF-8, and then holds the characters they
/// encode.
#[verifier::external_body]
fn string_from_utf8(bytes: Vec<u8>) -> (r: Option<String>)
    ensures
        r is Some <==> valid_utf8(bytes@),
        r matches Some(s) ==> s@ == decode_utf8(bytes@),
{
    String::from_utf8(bytes).ok()
}

/// `%XX` escapes decoded; `None` when the result is not UTF-8.
pub fn percent_decoded(text: &str) -> (r: Option<String>)
    ensures
        r is Some <==> valid_utf8(percent_decode(encode_utf8(text@))),
        r matches Some(s) ==> s@ == decode_utf8(percent_decode(encode_utf8(text@))),
{
    let bytes = text.as_bytes();
    let out = decode_percent_escapes(bytes);
    string_from_utf8(out)
}

/// Bytes without a `%` come out of decoding unchanged.
pub proof fn lemma_decode_without_percent(b: Seq<u8>)
    requires
        forall|i: int| 0 <= i < b.len() ==> b[i] != PERCENT,
    ensures
        percent_decode(b) == b,
    decreases b.len(),
{
    if b.len() > 0 {
        let rest = b.subrange(1, b.len() as int);
        lemma_decode_without_percent(rest);
        assert(b =~= seq![b[0]] + rest);
    }
}

/// The upper-case hexadecimal digit of `d` (`d < 16`).
pub open spec fn upper_hex_digit(d: nat) -> u8
    recommends
        d < 16,
{
    if d < 10 {
        (48 + d) as u8
    } else {
        (55 + d) as u8
    }
}

/// `b` with every byte written as an escape, `%XX`.
pub open spec fn percent_encode_all(b: Seq<u8>) -> Seq<u8>
    decreases b.len(),
{
    if b.len() == 0 {
        seq![]
    } else {
        seq![PERCENT, upper_hex_digit((b[0] / 16) as nat), upper_hex_digit((b[0] % 16) as nat)]
            + percent_encode_all(b.subrange(1, b.len() as int))
    }
}

/// Escaping every byte as `%XX` and decoding gives the bytes back.
pub proof fn lemma_escaping_every_byte_round_trips(b: Seq<u8>)
    ensures
        percent_decode(percent_encode_all(b)) == b,
    decreases b.len(),
{
    if b.len() > 0 {
        let rest = b.subrange(1, b.len() as int);
        let e = percent_encode_all(b);
        let hi = upper_hex_digit((b[0] / 16) as nat);
        let lo = upper_hex_digit((b[0] % 16) as nat);
        lemma_escaping_every_byte_round_trips(rest);
        assert(e[0] == PERCENT && e[1] == hi && e[2] == lo);
        assert(starts_with_escape(e));
        assert(hex_value(hi) * 16 + hex_value(lo) == b[0]);
        assert(e.subrange(3, e.len() as int) =~= percent_encode_all(rest));
        assert(b =~= seq![b[0]] + rest);
    }
}

/// Fully escaped bytes are three for each byte, and each of them is `%` or
/// a hexadecimal digit.
pub proof fn lemma_escaped_bytes(b: Seq<u8>)
    ensures
        percent_encode_all(b).len() == 3 * b.len(),
        forall|i: int|
            0 <= i < percent_encode_all(b).len() ==> #[trigger] percent_encode_all(b)[i]
                == PERCENT || is_hex_digit(percent_encode_all(b)[i]),
    decreases b.len(),
{
    if b.len() > 0 {
        let rest = b.subrange(1, b.len() as int);
        let head = seq![
            PERCENT,
            upper_hex_digit((b[0] / 16) as nat),
            upper_hex_digit((b[0] % 16) as nat),
        ];
        lemma_escaped_bytes(rest);
        let e = percent_encode_all(b);
        assert(e == head + percent_encode_all(rest));
        assert forall|i: int| 0 <= i < e.len() implies #[trigger] e[i] == PERCENT || is_hex_digit(
            e[i],
        ) by {
            if i >= 3 {
                assert(e[i] == percent_encode_all(rest)[i - 3]);
            }
        }
    }
}

/// A text with no `%` decodes to itself.
pub proof fn lemma_text_without_percent_decodes_to_itself(text: Seq<char>)
    requires
        !text.contains('%'),
    ensures
        valid_utf8(percent_decode(encode_utf8(text))),
        decode_utf8(percent_decode(encode_utf8(text))) == text,
{
    assert forall|i: int| 0 <= i < text.len() implies (#[trigger] text[i]) as u32
        != PERCENT as u32 by {
        if text[i] as u32 == 37 {
            vstd::utf8::char_u32_cast('%', 37);
            vstd::utf8::char_u32_cast(text[i], 37);
            assert(text.contains('%'));
        }
    }
    lemma_encoding_avoids(text, PERCENT);
    lemma_decode_without_percent(encode_utf8(text));
    encode_utf8_valid_utf8(text);
    encode_utf8_decode_utf8(text);
}

} // verus!
