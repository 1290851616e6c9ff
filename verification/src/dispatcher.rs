//! The dispatch unit: what happens to one datagram between its arrival and the
//! one record that is logged about it.
//!
//! A unit is a small machine. The caller starts it on the bytes of a
//! datagram, performs the action it asks for (acquire the connection, send a
//! publish) and reports back what happened.

use vstd::prelude::*;
use crate::decoder::{decode_bytes, decode_datagram, DecodedMessage, DropReason, MessageView};

verus! {

/// The quality-of-service level of every publish: the lowest one.
pub const PUBLISH_QOS: i32 = 0;

/// One publish operation, ready to be sent on the broker connection.
#[derive(Debug)]
pub struct PublishRequest {
    /// Topic, verbatim from the datagram.
    pub topic: String,
    /// Payload, verbatim from the datagram.
    pub payload: String,
    /// Quality-of-service level.
    pub qos: i32,
    /// Whether the broker is asked to retain the message.
    pub retained: bool,
}

/// The mathematical value of a `PublishRequest`.
pub struct RequestView {
    pub topic: Seq<char>,
    pub payload: Seq<char>,
    pub qos: int,
    pub retained: bool,
}

impl View for PublishRequest {
    type V = RequestView;

    open spec fn view(&self) -> RequestView {
        RequestView {
            topic: self.topic@,
            payload: self.payload@,
            qos: self.qos as int,
            retained: self.retained,
        }
    }
}

/// The request that publishes `topic` and `payload`: lowest quality of
/// service, not retained.
pub open spec fn request_for(topic: Seq<char>, payload: Seq<char>) -> RequestView {
    RequestView { topic, payload, qos: PUBLISH_QOS as int, retained: false }
}

/// Where a dispatch unit stands.
#[derive(Debug)]
pub enum UnitState {
    /// The datagram is decoded; the unit waits for exclusive access to the
    /// broker connection.
    AwaitingAccess { message: DecodedMessage },
    /// A publish was handed to the connection; the unit waits for its result.
    Publishing,
    /// The unit has logged its record and is finished.
    Done,
}

/// What the caller reports to a dispatch unit.
#[derive(Debug, Clone, Copy, PartialEq, Eq, Structural)]
pub enum UnitEvent {
    /// Exclusive access to the connection was acquired.
    AccessGranted,
    /// Exclusive access to the connection could not be acquired.
    AccessDenied,
    /// The connection accepted the publish.
    PublishSucceeded,
    /// The connection reported that the publish failed.
    PublishFailed,
}

/// What a dispatch unit asks the caller to do.
#[derive(Debug)]
pub enum UnitAction {
    /// Acquire exclusive access to the broker connection.
    Acquire,
    /// Send this request on the connection, then release the connection.
    Publish(PublishRequest),
    /// Log the reason at error level; the datagram is lost.
    ReportError(DropReason),
    /// Log that the message was sent.
    ReportSent,
    /// The event did not fit the state: do nothing.
    Nothing,
}

/// The mathematical value of a `UnitState`.
pub enum UnitStateView {
    AwaitingAccess { message: MessageView },
    Publishing,
    Done,
}

/// The mathematical value of a `UnitAction`.
pub enum UnitActionView {
    Acquire,
    Publish(RequestView),
    ReportError(DropReason),
    ReportSent,
    Nothing,
}

impl View for UnitState {
    type V = UnitStateView;

    open spec fn view(&self) -> UnitStateView {
        match self {
            UnitState::AwaitingAccess { message } => UnitStateView::AwaitingAccess {
                message: message@,
            },
            UnitState::Publishing => UnitStateView::Publishing,
            UnitState::Done => UnitStateView::Done,
        }
    }
}

impl View for UnitAction {
    type V = UnitActionView;

    open spec fn view(&self) -> UnitActionView {
        match self {
            UnitAction::Acquire => UnitActionView::Acquire,
            UnitAction::Publish(request) => UnitActionView::Publish(request@),
            UnitAction::ReportError(reason) => UnitActionView::ReportError(*reason),
            UnitAction::ReportSent => UnitActionView::ReportSent,
            UnitAction::Nothing => UnitActionView::Nothing,
        }
    }
}

/// How a unit starts on the bytes of a datagram: bytes that are not text are
/// reported and the unit is done; any text makes the unit ask for the
/// connection.
pub open spec fn start_spec(datagram: Seq<u8>) -> (UnitStateView, UnitActionView) {
    match decode_bytes(datagram) {
        Some(message) => (UnitStateView::AwaitingAccess { message }, UnitActionView::Acquire),
        None => (UnitStateView::Done, UnitActionView::ReportError(DropReason::InvalidText)),
    }
}

/// How a unit answers an event.
pub open spec fn step_spec(state: UnitStateView, event: UnitEvent) -> (
    UnitStateView,
    UnitActionView,
) {
    match (state, event) {
        (UnitStateView::AwaitingAccess { message }, UnitEvent::AccessGranted) => {
            if message.is_eligible() {
                (
                    UnitStateView::Publishing,
                    UnitActionView::Publish(
                        request_for(message.topic.unwrap(), message.payload.unwrap()),
                    ),
                )
            } else {
                (UnitStateView::Done, UnitActionView::ReportError(DropReason::Incomplete))
            }
        },
        (UnitStateView::AwaitingAccess { message }, UnitEvent::AccessDenied) => (
            UnitStateView::Done,
            UnitActionView::ReportError(DropReason::ConnectionUnavailable),
        ),
        (UnitStateView::Publishing, UnitEvent::PublishSucceeded) => (
            UnitStateView::Done,
            UnitActionView::ReportSent,
        ),
        (UnitStateView::Publishing, UnitEvent::PublishFailed) => (
            UnitStateView::Done,
            UnitActionView::ReportError(DropReason::PublishFailed),
        ),
        _ => (state, UnitActionView::Nothing),
    }
}

/// Starts a dispatch unit on the bytes of one datagram.
pub fn begin_dispatch(datagram: &[u8]) -> (begun: (UnitState, UnitAction))
    ensures
        (begun.0@, begun.1@) == start_spec(datagram@),
{
    match decode_datagram(datagram) {
        Ok(message) => (UnitState::AwaitingAccess { message }, UnitAction::Acquire),
        Err(reason) => (UnitState::Done, UnitAction::ReportError(reason)),
    }
}

/// Builds the publish request for a topic and a payload.
pub fn build_request(topic: String, payload: String) -> (request: PublishRequest)
    ensures
        request@ == request_for(topic@, payload@),
{
    PublishRequest { topic, payload, qos: PUBLISH_QOS, retained: false }
}

/// Advances a dispatch unit by one event.
///
/// With access granted, an eligible message becomes a publish request and an
/// ineligible one is reported as incomplete. With access denied the message
/// is lost. The result of the publish is reported, and the unit is done. An
/// event that does not fit the state changes nothing.
pub fn advance(state: UnitState, event: UnitEvent) -> (next: (UnitState, UnitAction))
    ensures
        (next.0@, next.1@) == step_spec(state@, event),
{
    match state {
        UnitState::AwaitingAccess { message } => match event {
            UnitEvent::AccessGranted => match (message.topic, message.payload) {
                (Some(topic), Some(payload)) => (
                    UnitState::Publishing,
                    UnitAction::Publish(build_request(topic, payload)),
                ),
                _ => (UnitState::Done, UnitAction::ReportError(DropReason::Incomplete)),
            },
            UnitEvent::AccessDenied => (
                UnitState::Done,
                UnitAction::ReportError(DropReason::ConnectionUnavailable),
            ),
            _ => (UnitState::AwaitingAccess { message }, UnitAction::Nothing),
        },
        UnitState::Publishing => match event {
            UnitEvent::PublishSucceeded => (UnitState::Done, UnitAction::ReportSent),
            UnitEvent::PublishFailed => (
                UnitState::Done,
                UnitAction::ReportError(DropReason::PublishFailed),
            ),
            _ => (UnitState::Publishing, UnitAction::Nothing),
        },
        UnitState::Done => (UnitState::Done, UnitAction::Nothing),
    }
}

} // verus!
