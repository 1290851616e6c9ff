//! The message decoder: from the bytes of one datagram to a topic and a payload.

use vstd::prelude::*;
use vstd::utf8::*;
use vstd::string::*;
use crate::framing::{
    has_delimiter, lemma_split_on_the_wire, lemma_topic_len, payload_of, split_message, topic_of,
    wire_topic_len,
};

verus! {

/// Why a datagram was dropped instead of being published.
#[derive(Debug, Clone, Copy, PartialEq, Eq, Structural)]
pub enum DropReason {
    /// The bytes of the datagram are not UTF-8 text.
    InvalidText,
    /// The text holds no delimiter, so the topic or the payload is missing.
    Incomplete,
    /// Exclusive access to the broker connection could not be acquired.
    ConnectionUnavailable,
    /// The broker connection reported that the publish failed.
    PublishFailed,
}

/// What one datagram decodes to. Only a message with both parts present is
/// eligible for publishing.
#[derive(Debug)]
pub struct DecodedMessage {
    /// The text before the first delimiter.
    pub topic: Option<String>,
    /// The text after the first delimiter.
    pub payload: Option<String>,
}

/// The mathematical value of a `DecodedMessage`.
pub struct MessageView {
    pub topic: Option<Seq<char>>,
    pub payload: Option<Seq<char>>,
}

impl View for DecodedMessage {
    type V = MessageView;

    open spec fn view(&self) -> MessageView {
        MessageView {
            topic: match self.topic {
                Some(t) => Some(t@),
                None => None,
            },
            payload: match self.payload {
                Some(p) => Some(p@),
                None => None,
            },
        }
    }
}

impl MessageView {
    /// Both parts are present.
    pub open spec fn is_eligible(self) -> bool {
        self.topic is Some && self.payload is Some
    }
}

/// The message that a text splits into.
pub open spec fn split_text(text: Seq<char>) -> MessageView {
    MessageView { topic: Some(topic_of(text)), payload: payload_of(text) }
}

/// The message that the bytes of a datagram decode to; `None` where the bytes
/// are not UTF-8 text.
pub open spec fn decode_bytes(bytes: Seq<u8>) -> Option<MessageView> {
    if valid_utf8(bytes) {
        Some(split_text(decode_utf8(bytes)))
    } else {
        None
    }
}

impl DecodedMessage {
    /// Whether the message may be published: topic and payload are both present.
    pub fn is_eligible(&self) -> (eligible: bool)
        ensures
            eligible == self@.is_eligible(),
    {
        self.topic.is_some() && self.payload.is_some()
    }
}

/// Copies a part of a split message into an owned string.
fn own_part(part: Option<&str>) -> (owned: Option<String>)
    ensures
        match owned {
            Some(s) => part matches Some(p) && s@ == p@,
            None => part is None,
        },
{
    match part {
        Some(p) => Some(p.to_owned()),
        None => None,
    }
}

/// Decodes the bytes of one datagram.
///
/// Fails with `DropReason::InvalidText` exactly when the bytes are not UTF-8
/// text. Otherwise the text is split at its first delimiter: the topic is
/// what stands before it, the payload what stands after it, both verbatim. A
/// text without a delimiter decodes to a message without payload.
pub fn decode_datagram(bytes: &[u8]) -> (decoded: Result<DecodedMessage, DropReason>)
    ensures
        match decoded {
            Ok(message) => decode_bytes(bytes@) == Some(message@),
            Err(reason) => reason == DropReason::InvalidText && decode_bytes(bytes@) is None,
        },
{
    match core::str::from_utf8(bytes) {
        Ok(text) => {
            proof {
                encode_utf8_decode_utf8(text@);
            }
            let parts = split_message(text);
            Ok(DecodedMessage { topic: own_part(parts.0), payload: own_part(parts.1) })
        },
        Err(_) => Err(DropReason::InvalidText),
    }
}

/// A datagram decodes to an eligible message exactly when it is UTF-8 text
/// that holds a delimiter.
pub proof fn lemma_eligible_iff_framed(bytes: Seq<u8>)
    ensures
        (decode_bytes(bytes) matches Some(message) && message.is_eligible()) <==> (valid_utf8(bytes)
            && has_delimiter(decode_utf8(bytes))),
{
    if valid_utf8(bytes) {
        lemma_topic_len(decode_utf8(bytes));
    }
}

/// Topic and payload are taken verbatim from the datagram: the topic that a
/// datagram decodes to is encoded by the bytes before its first delimiter
/// byte, and the payload by the bytes after it.
pub proof fn lemma_decoded_verbatim(bytes: Seq<u8>)
    requires
        valid_utf8(bytes),
    ensures
        decode_bytes(bytes) matches Some(message) && message.topic matches Some(topic)
            && encode_utf8(topic) == bytes.take(wire_topic_len(bytes) as int),
        decode_bytes(bytes)->0.payload is Some <==> wire_topic_len(bytes) < bytes.len(),
        decode_bytes(bytes)->0.payload matches Some(payload) ==> encode_utf8(payload)
            == bytes.skip(wire_topic_len(bytes) as int + 1),
{
    let text = decode_utf8(bytes);
    decode_utf8_encode_utf8(bytes);
    lemma_split_on_the_wire(text);
    lemma_topic_len(text);
}

} // verus!
