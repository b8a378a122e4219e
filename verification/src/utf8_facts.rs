use vstd::prelude::*;
use vstd::utf8::{
    encode_scalar, encode_utf8, has_width_1_encoding, last_continuation_byte,
    leading_byte_width_1, leading_byte_width_2, leading_byte_width_3, leading_byte_width_4,
    second_last_continuation_byte, third_last_continuation_byte,
};

verus! {

/// The encoding of a concatenation is the concatenation of the encodings.
pub proof fn lemma_encode_utf8_concat(a: Seq<char>, b: Seq<char>)
    ensures
        encode_utf8(a + b) == encode_utf8(a) + encode_utf8(b),
    decreases a.len(),
{
    if a.len() == 0 {
        assert(a + b =~= b);
        assert(encode_utf8(a) + encode_utf8(b) =~= encode_utf8(b));
    } else {
        lemma_encode_utf8_concat(a.drop_first(), b);
        assert((a + b).drop_first() =~= a.drop_first() + b);
        assert((a + b)[0] == a[0]);
        assert(encode_utf8(a + b) =~= encode_utf8(a) + encode_utf8(b));
    }
}

/// An ASCII character is encoded as the one byte of its value.
pub proof fn lemma_encode_ascii_char(c: char)
    requires
        (c as u32) < 128,
    ensures
        encode_scalar(c as u32) == seq![(c as u32) as u8],
{
    let v = c as u32;
    assert(has_width_1_encoding(v));
    assert(leading_byte_width_1(v) == v as u8) by (bit_vector)
        requires
            v < 128,
    ;
}

/// The encoding of a character other than the ASCII character `x` holds no
/// byte `x`: a one-byte encoding is the character itself, and the bytes of
/// a longer one all have their high bit set.
pub proof fn lemma_scalar_encoding_avoids(c: char, x: u8)
    requires
        x < 128,
        c as u32 != x as u32,
    ensures
        forall|i: int|
            0 <= i < encode_scalar(c as u32).len() ==> #[trigger] encode_scalar(c as u32)[i] != x,
{
    let v = c as u32;
    assert(has_width_1_encoding(v) ==> leading_byte_width_1(v) != x) by (bit_vector)
        requires
            v != x as u32,
    ;
    assert(leading_byte_width_2(v) >= 0x80) by (bit_vector);
    assert(leading_byte_width_3(v) >= 0x80) by (bit_vector);
    assert(leading_byte_width_4(v) >= 0x80) by (bit_vector);
    assert(last_continuation_byte(v) >= 0x80) by (bit_vector);
    assert(second_last_continuation_byte(v) >= 0x80) by (bit_vector);
    assert(third_last_continuation_byte(v) >= 0x80) by (bit_vector);
}

/// A text without the ASCII character `x` encodes to bytes without `x`.
pub proof fn lemma_encoding_avoids(text: Seq<char>, x: u8)
    requires
        x < 128,
        forall|i: int| 0 <= i < text.len() ==> (#[trigger] text[i]) as u32 != x as u32,
    ensures
        forall|i: int| 0 <= i < encode_utf8(text).len() ==> #[trigger] encode_utf8(text)[i] != x,
    decreases text.len(),
{
    if text.len() > 0 {
        let head = encode_scalar(text[0] as u32);
        let rest = text.drop_first();
        assert forall|i: int| 0 <= i < rest.len() implies (#[trigger] rest[i]) as u32
            != x as u32 by {
            assert(rest[i] == text[i + 1]);
        }
        lemma_scalar_encoding_avoids(text[0], x);
        lemma_encoding_avoids(rest, x);
        assert(encode_utf8(text) == head + encode_utf8(rest));
        assert forall|i: int| 0 <= i < encode_utf8(text).len() implies #[trigger] encode_utf8(
            text,
        )[i] != x by {
            if i < head.len() {
                assert(encode_utf8(text)[i] == head[i]);
            } else {
                assert(encode_utf8(text)[i] == encode_utf8(rest)[i - head.len()]);
            }
        }
    }
}

} // verus!
