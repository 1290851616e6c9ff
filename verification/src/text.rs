//! Text on the wire: UTF-8 decoding of a datagram and the facts about the
//! encoding that the framing rests on.

use vstd::prelude::*;
use vstd::utf8::*;
use vstd::string::*;

verus! {

/// The character that separates the topic from the payload.
pub const DELIMITER: char = ':';

/// The delimiter as it appears in the bytes of a datagram.
pub const DELIMITER_BYTE: u8 = 0x3a;

/// The error type of `core::str::from_utf8`, carried through as an opaque value.
#[verifier::external_type_specification]
#[verifier::external_body]
pub struct ExUtf8Error(core::str::Utf8Error);

/// Trusted: `core::str::from_utf8` succeeds exactly on the byte sequences that
/// are well-formed UTF-8, and the string slice it returns then has exactly
/// those bytes as its encoding.
pub assume_specification<'a>[ core::str::from_utf8 ](v: &'a [u8]) -> (text: Result<
    &'a str,
    core::str::Utf8Error,
>)
    ensures
        text is Ok <==> valid_utf8(v@),
        text matches Ok(s) ==> s.spec_bytes() == v@,
;

/// Encoding a concatenation is concatenating the encodings.
pub proof fn lemma_encode_concat(a: Seq<char>, b: Seq<char>)
    ensures
        encode_utf8(a + b) == encode_utf8(a) + encode_utf8(b),
    decreases a.len(),
{
    if a.len() == 0 {
        assert(a + b == b);
        assert(encode_utf8(a) + encode_utf8(b) == encode_utf8(b));
    } else {
        lemma_encode_concat(a.drop_first(), b);
        assert((a + b).drop_first() == a.drop_first() + b);
        assert(encode_utf8(a + b) == encode_scalar(a[0] as u32) + (encode_utf8(a.drop_first())
            + encode_utf8(b)));
        assert(encode_utf8(a + b) == (encode_scalar(a[0] as u32) + encode_utf8(a.drop_first()))
            + encode_utf8(b));
    }
}

/// The delimiter is encoded as the single byte `DELIMITER_BYTE`.
pub proof fn lemma_encode_delimiter()
    ensures
        encode_utf8(seq![DELIMITER]) == seq![DELIMITER_BYTE],
{
    let text = seq![DELIMITER];
    assert(text.drop_first() == Seq::<char>::empty());
    assert(encode_utf8(text.drop_first()) == Seq::<u8>::empty());
    assert(DELIMITER as u32 == 0x3au32);
    assert(leading_byte_width_1(0x3au32) == 0x3au8) by (bit_vector);
    assert(encode_scalar(0x3au32) == seq![0x3au8]);
    assert(encode_utf8(text) == encode_scalar(text[0] as u32) + encode_utf8(text.drop_first()));
    assert(encode_utf8(text) == seq![DELIMITER_BYTE]);
}

/// Two texts with the same encoding are the same text.
pub proof fn lemma_encode_injective(a: Seq<char>, b: Seq<char>)
    requires
        encode_utf8(a) == encode_utf8(b),
    ensures
        a == b,
{
    encode_utf8_decode_utf8(a);
    encode_utf8_decode_utf8(b);
}

/// A delimiter in a text shows as a delimiter byte in its encoding, at the
/// offset at which the characters before it end.
pub proof fn lemma_delimiter_char_to_byte(text: Seq<char>, k: int)
    requires
        0 <= k < text.len(),
        text[k] == DELIMITER,
    ensures
        encode_utf8(text.take(k)).len() < encode_utf8(text).len(),
        encode_utf8(text)[encode_utf8(text.take(k)).len() as int] == DELIMITER_BYTE,
        encode_utf8(text) == encode_utf8(text.take(k)) + seq![DELIMITER_BYTE] + encode_utf8(
            text.skip(k + 1),
        ),
{
    let head = text.take(k);
    let tail = text.skip(k + 1);
    assert(text == head + seq![DELIMITER] + tail);
    lemma_encode_concat(head + seq![DELIMITER], tail);
    lemma_encode_concat(head, seq![DELIMITER]);
    lemma_encode_delimiter();
}

/// The encoding of a scalar other than the delimiter holds no delimiter byte:
/// a one-byte encoding is the scalar itself, and every byte of a longer
/// encoding has its high bit set.
pub proof fn lemma_scalar_without_delimiter(scalar: u32)
    requires
        is_scalar(scalar),
        scalar != 0x3a,
    ensures
        forall|i: int|
            0 <= i < encode_scalar(scalar).len() ==> encode_scalar(scalar)[i] != DELIMITER_BYTE,
{
    let b1 = (scalar & 0x7F) as u8;
    let b6 = ((scalar >> 6) & 0x1F) as u8;
    let b12 = ((scalar >> 12) & 0x0F) as u8;
    let b18 = ((scalar >> 18) & 0x7) as u8;
    let c0 = (scalar & 0x3F) as u8;
    let c6 = ((scalar >> 6) & 0x3F) as u8;
    let c12 = ((scalar >> 12) & 0x3F) as u8;
    assert(scalar <= 0x7f && scalar != 0x3a ==> (scalar & 0x7F) as u8 != 0x3au8) by (bit_vector);
    assert((0xC0u8 | b6) >= 0x80) by (bit_vector);
    assert((0xE0u8 | b12) >= 0x80) by (bit_vector);
    assert((0xF0u8 | b18) >= 0x80) by (bit_vector);
    assert((0x80u8 | c0) >= 0x80) by (bit_vector);
    assert((0x80u8 | c6) >= 0x80) by (bit_vector);
    assert((0x80u8 | c12) >= 0x80) by (bit_vector);
}

/// A text without a delimiter has an encoding without a delimiter byte.
pub proof fn lemma_text_without_delimiter(text: Seq<char>)
    requires
        forall|k: int| 0 <= k < text.len() ==> text[k] != DELIMITER,
    ensures
        forall|i: int|
            0 <= i < encode_utf8(text).len() ==> encode_utf8(text)[i] != DELIMITER_BYTE,
    decreases text.len(),
{
    if text.len() > 0 {
        let first = encode_scalar(text[0] as u32);
        let rest = text.drop_first();
        char_is_scalar(text[0]);
        assert(text[0] as u32 != 0x3a) by {
            if text[0] as u32 == 0x3a {
                char_u32_cast(text[0], 0x3au32);
                char_u32_cast(DELIMITER, 0x3au32);
            }
        }
        lemma_scalar_without_delimiter(text[0] as u32);
        assert forall|k: int| 0 <= k < rest.len() implies rest[k] != DELIMITER by {
            assert(rest[k] == text[k + 1]);
        }
        lemma_text_without_delimiter(rest);
        assert forall|i: int| 0 <= i < encode_utf8(text).len() implies encode_utf8(text)[i]
            != DELIMITER_BYTE by {
            if i < first.len() {
                assert(encode_utf8(text)[i] == first[i]);
            } else {
                assert(encode_utf8(text)[i] == encode_utf8(rest)[i - first.len()]);
            }
        }
    }
}

} // verus!
