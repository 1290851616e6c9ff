//! The framing convention `topic:payload`: the first delimiter splits, and
//! everything after it, further delimiters included, is payload.

use vstd::prelude::*;
use vstd::utf8::*;
use vstd::string::*;
use crate::text::{
    lemma_delimiter_char_to_byte, lemma_encode_concat, lemma_encode_delimiter,
    lemma_encode_injective, lemma_text_without_delimiter, DELIMITER, DELIMITER_BYTE,
};

verus! {

/// Number of characters of `text` that precede its first delimiter; the whole
/// length where it has none.
pub open spec fn topic_len(text: Seq<char>) -> nat
    decreases text.len(),
{
    if text.len() == 0 || text[0] == DELIMITER {
        0
    } else {
        1 + topic_len(text.drop_first())
    }
}

/// Whether `text` holds a delimiter.
pub open spec fn has_delimiter(text: Seq<char>) -> bool {
    exists|k: int| 0 <= k < text.len() && text[k] == DELIMITER
}

/// The topic of `text`: what stands before the first delimiter, or all of it.
pub open spec fn topic_of(text: Seq<char>) -> Seq<char> {
    text.take(topic_len(text) as int)
}

/// The payload of `text`: what stands after the first delimiter, if there is one.
pub open spec fn payload_of(text: Seq<char>) -> Option<Seq<char>> {
    if topic_len(text) < text.len() {
        Some(text.skip(topic_len(text) as int + 1))
    } else {
        None
    }
}

/// `text` is `topic`, one delimiter, and `payload`, with no delimiter in `topic`.
pub open spec fn is_framed(text: Seq<char>, topic: Seq<char>, payload: Seq<char>) -> bool {
    &&& text == topic + seq![DELIMITER] + payload
    &&& !has_delimiter(topic)
}

/// `topic_len` is the position of the first delimiter: no delimiter stands
/// before it, and one stands at it unless the text ends there.
pub proof fn lemma_topic_len(text: Seq<char>)
    ensures
        topic_len(text) <= text.len(),
        forall|j: int| 0 <= j < topic_len(text) ==> text[j] != DELIMITER,
        topic_len(text) < text.len() ==> text[topic_len(text) as int] == DELIMITER,
        has_delimiter(text) <==> topic_len(text) < text.len(),
    decreases text.len(),
{
    if text.len() == 0 || text[0] == DELIMITER {
        if text.len() > 0 {
            assert(0 <= 0 < text.len() && text[0] == DELIMITER);
        }
    } else {
        let rest = text.drop_first();
        lemma_topic_len(rest);
        assert forall|j: int| 0 <= j < topic_len(text) implies text[j] != DELIMITER by {
            if j > 0 {
                assert(text[j] == rest[j - 1]);
            }
        }
        if topic_len(text) < text.len() {
            let k = topic_len(text) as int;
            assert(text[k] == rest[k - 1]);
            assert(0 <= k < text.len() && text[k] == DELIMITER);
        }
        if has_delimiter(text) {
            let k = choose|k: int| 0 <= k < text.len() && text[k] == DELIMITER;
            assert(k > 0);
            assert(rest[k - 1] == text[k]);
            assert(0 <= k - 1 < rest.len() && rest[k - 1] == DELIMITER);
        }
    }
}

/// A text without a delimiter is all topic and has no payload.
pub proof fn lemma_unframed(text: Seq<char>)
    requires
        !has_delimiter(text),
    ensures
        topic_of(text) == text,
        payload_of(text) is None,
{
    lemma_topic_len(text);
}

/// The framing is unique: a text that is `topic`, a delimiter and `payload`,
/// with no delimiter in `topic`, has that topic and that payload.
pub proof fn lemma_framed_unique(text: Seq<char>, topic: Seq<char>, payload: Seq<char>)
    requires
        is_framed(text, topic, payload),
    ensures
        topic_of(text) == topic,
        payload_of(text) == Some(payload),
{
    lemma_topic_len(text);
    let k = topic.len() as int;
    let n = topic_len(text) as int;
    assert(text[k] == DELIMITER);
    if n < k {
        assert(text[n] == topic[n]);
        assert(0 <= n < topic.len() && topic[n] == DELIMITER);
    }
    assert(n == k);
    assert(text.take(k) == topic);
    assert(text.skip(k + 1) == payload);
}

/// What `topic_of` and `payload_of` return frames the text again.
pub proof fn lemma_framed_exists(text: Seq<char>)
    requires
        has_delimiter(text),
    ensures
        payload_of(text) is Some,
        is_framed(text, topic_of(text), payload_of(text).unwrap()),
{
    lemma_topic_len(text);
    let n = topic_len(text) as int;
    assert(text == text.take(n) + seq![DELIMITER] + text.skip(n + 1));
}

/// Splits `message` at its first delimiter.
///
/// The first part is always present: it is the text before the first
/// delimiter, or the whole message where there is none. The second part is
/// present exactly when the message holds a delimiter, and is then everything
/// after the first one. Neither part is trimmed or changed.
pub fn split_message<'a>(message: &'a str) -> (parts: (Option<&'a str>, Option<&'a str>))
    ensures
        parts.0 matches Some(topic) && topic@ == topic_of(message@),
        match parts.1 {
            Some(payload) => payload_of(message@) == Some(payload@),
            None => payload_of(message@) is None,
        },
        parts.1 is Some <==> has_delimiter(message@),
{
    let bytes = message.as_bytes();
    let mut at: usize = 0;
    while at < bytes.len() && bytes[at] != DELIMITER_BYTE
        invariant
            at <= bytes@.len(),
            forall|j: int| 0 <= j < at ==> bytes@[j] != DELIMITER_BYTE,
        decreases bytes@.len() - at,
    {
        at += 1;
    }
    proof {
        encode_utf8_valid_utf8(message@);
    }
    if at == bytes.len() {
        proof {
            if has_delimiter(message@) {
                let k = choose|k: int| 0 <= k < message@.len() && message@[k] == DELIMITER;
                lemma_delimiter_char_to_byte(message@, k);
            }
            lemma_unframed(message@);
        }
        return (Some(message), None);
    }
    proof {
        is_char_boundary_iff_not_is_continuation_byte(bytes@, at as int);
    }
    let (topic, rest) = message.split_at(at);
    proof {
        encode_utf8_valid_utf8(rest@);
        reveal_with_fuel(is_char_boundary, 2);
        assert(rest.spec_bytes()[0] == DELIMITER_BYTE);
        assert(is_char_boundary(rest.spec_bytes(), 1));
    }
    let (mark, payload) = rest.split_at(1);
    proof {
        lemma_encode_delimiter();
        assert(mark.spec_bytes() == seq![DELIMITER_BYTE]);
        lemma_encode_injective(mark@, seq![DELIMITER]);
        lemma_encode_concat(topic@ + mark@, payload@);
        lemma_encode_concat(topic@, mark@);
        assert(topic.spec_bytes() + mark.spec_bytes() + payload.spec_bytes() == bytes@);
        lemma_encode_injective(topic@ + mark@ + payload@, message@);
        if has_delimiter(topic@) {
            let k = choose|k: int| 0 <= k < topic@.len() && topic@[k] == DELIMITER;
            lemma_delimiter_char_to_byte(topic@, k);
        }
        lemma_framed_unique(message@, topic@, payload@);
        lemma_topic_len(message@);
    }
    (Some(topic), Some(payload))
}

/// Number of bytes of a datagram that precede its first delimiter byte; the
/// whole length where it has none.
pub open spec fn wire_topic_len(bytes: Seq<u8>) -> nat
    decreases bytes.len(),
{
    if bytes.len() == 0 || bytes[0] == DELIMITER_BYTE {
        0
    } else {
        1 + wire_topic_len(bytes.drop_first())
    }
}

/// `wire_topic_len` is the position of the first delimiter byte.
pub proof fn lemma_wire_topic_len(bytes: Seq<u8>)
    ensures
        wire_topic_len(bytes) <= bytes.len(),
        forall|j: int| 0 <= j < wire_topic_len(bytes) ==> bytes[j] != DELIMITER_BYTE,
        wire_topic_len(bytes) < bytes.len() ==> bytes[wire_topic_len(bytes) as int]
            == DELIMITER_BYTE,
    decreases bytes.len(),
{
    if !(bytes.len() == 0 || bytes[0] == DELIMITER_BYTE) {
        let rest = bytes.drop_first();
        lemma_wire_topic_len(rest);
        assert forall|j: int| 0 <= j < wire_topic_len(bytes) implies bytes[j]
            != DELIMITER_BYTE by {
            if j > 0 {
                assert(bytes[j] == rest[j - 1]);
            }
        }
        if wire_topic_len(bytes) < bytes.len() {
            assert(bytes[wire_topic_len(bytes) as int] == rest[wire_topic_len(bytes) - 1]);
        }
    }
}

/// The framing on the wire: in a datagram that is UTF-8 text, the topic is
/// encoded by the bytes before the first delimiter byte and the payload by
/// the bytes after it, and the text holds a delimiter exactly when the bytes
/// hold a delimiter byte.
pub proof fn lemma_split_on_the_wire(text: Seq<char>)
    ensures
        encode_utf8(topic_of(text)) == encode_utf8(text).take(
            wire_topic_len(encode_utf8(text)) as int,
        ),
        has_delimiter(text) <==> wire_topic_len(encode_utf8(text)) < encode_utf8(text).len(),
        payload_of(text) matches Some(payload) ==> encode_utf8(payload) == encode_utf8(text).skip(
            wire_topic_len(encode_utf8(text)) as int + 1,
        ),
{
    let bytes = encode_utf8(text);
    let n = topic_len(text) as int;
    let topic = topic_of(text);
    lemma_topic_len(text);
    lemma_wire_topic_len(bytes);
    assert forall|k: int| 0 <= k < topic.len() implies topic[k] != DELIMITER by {
        assert(topic[k] == text[k]);
    }
    lemma_text_without_delimiter(topic);
    let w = wire_topic_len(bytes) as int;
    let head = encode_utf8(topic);
    if has_delimiter(text) {
        lemma_delimiter_char_to_byte(text, n);
        let tail = encode_utf8(text.skip(n + 1));
        assert(bytes == head + seq![DELIMITER_BYTE] + tail);
        if w < head.len() {
            assert(bytes[w] == head[w]);
        }
        if w > head.len() {
            assert(bytes[head.len() as int] == DELIMITER_BYTE);
        }
        assert(w == head.len());
        assert(bytes.take(w) == head);
        assert(bytes.skip(w + 1) == tail);
    } else {
        assert(topic == text);
        if w < bytes.len() {
            assert(bytes[w] == DELIMITER_BYTE);
        }
        assert(bytes.take(w) == bytes);
    }
}

} // verus!
