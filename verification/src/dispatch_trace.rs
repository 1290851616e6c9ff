//! Whole runs of a dispatch unit: the actions it asks for over a sequence of
//! events, and what holds of every such run.

use vstd::prelude::*;
use vstd::utf8::*;
use crate::decoder::{decode_bytes, DropReason};
use crate::dispatcher::{
    request_for, start_spec, step_spec, UnitActionView, UnitEvent, UnitStateView,
};
use crate::framing::{has_delimiter, lemma_topic_len, payload_of, topic_of};

verus! {

/// The actions that a unit in `state` asks for, one per event.
pub open spec fn run(state: UnitStateView, events: Seq<UnitEvent>) -> Seq<UnitActionView>
    decreases events.len(),
{
    if events.len() == 0 {
        Seq::empty()
    } else {
        let next = step_spec(state, events[0]);
        seq![next.1] + run(next.0, events.drop_first())
    }
}

/// The state that a unit in `state` reaches over `events`.
pub open spec fn state_after(state: UnitStateView, events: Seq<UnitEvent>) -> UnitStateView
    decreases events.len(),
{
    if events.len() == 0 {
        state
    } else {
        state_after(step_spec(state, events[0]).0, events.drop_first())
    }
}

/// Everything a unit asks for, from its start on `datagram` through `events`.
pub open spec fn trace(datagram: Seq<u8>, events: Seq<UnitEvent>) -> Seq<UnitActionView> {
    seq![start_spec(datagram).1] + run(start_spec(datagram).0, events)
}

/// Whether the unit started on `datagram` is done after `events`.
pub open spec fn is_complete(datagram: Seq<u8>, events: Seq<UnitEvent>) -> bool {
    state_after(start_spec(datagram).0, events) is Done
}

/// Number of publishes among `actions`.
pub open spec fn publish_count(actions: Seq<UnitActionView>) -> nat
    decreases actions.len(),
{
    if actions.len() == 0 {
        0
    } else {
        (if actions[0] is Publish {
            1nat
        } else {
            0nat
        }) + publish_count(actions.drop_first())
    }
}

/// Number of logged errors among `actions`.
pub open spec fn error_count(actions: Seq<UnitActionView>) -> nat
    decreases actions.len(),
{
    if actions.len() == 0 {
        0
    } else {
        (if actions[0] is ReportError {
            1nat
        } else {
            0nat
        }) + error_count(actions.drop_first())
    }
}

/// Number of logged successes among `actions`.
pub open spec fn sent_count(actions: Seq<UnitActionView>) -> nat
    decreases actions.len(),
{
    if actions.len() == 0 {
        0
    } else {
        (if actions[0] is ReportSent {
            1nat
        } else {
            0nat
        }) + sent_count(actions.drop_first())
    }
}

/// Counting over an action put in front of a sequence.
proof fn lemma_count_cons(first: UnitActionView, rest: Seq<UnitActionView>)
    ensures
        publish_count(seq![first] + rest) == (if first is Publish {
            1nat
        } else {
            0nat
        }) + publish_count(rest),
        error_count(seq![first] + rest) == (if first is ReportError {
            1nat
        } else {
            0nat
        }) + error_count(rest),
        sent_count(seq![first] + rest) == (if first is ReportSent {
            1nat
        } else {
            0nat
        }) + sent_count(rest),
{
    let all = seq![first] + rest;
    assert(all.drop_first() == rest);
    assert(all[0] == first);
}

/// A run holds one action for each event.
pub proof fn lemma_run_len(state: UnitStateView, events: Seq<UnitEvent>)
    ensures
        run(state, events).len() == events.len(),
    decreases events.len(),
{
    if events.len() > 0 {
        lemma_run_len(step_spec(state, events[0]).0, events.drop_first());
    }
}

/// A unit that is done asks for nothing more.
pub proof fn lemma_done_is_final(events: Seq<UnitEvent>)
    ensures
        state_after(UnitStateView::Done, events) is Done,
        publish_count(run(UnitStateView::Done, events)) == 0,
        error_count(run(UnitStateView::Done, events)) == 0,
        sent_count(run(UnitStateView::Done, events)) == 0,
    decreases events.len(),
{
    if events.len() > 0 {
        lemma_done_is_final(events.drop_first());
        lemma_count_cons(
            UnitActionView::Nothing,
            run(UnitStateView::Done, events.drop_first()),
        );
    }
}

/// A unit that waits for the result of its publish never publishes again; it
/// logs at most one record, and exactly one if it gets done.
pub proof fn lemma_publishing_run(events: Seq<UnitEvent>)
    ensures
        publish_count(run(UnitStateView::Publishing, events)) == 0,
        error_count(run(UnitStateView::Publishing, events)) + sent_count(
            run(UnitStateView::Publishing, events),
        ) <= 1,
        state_after(UnitStateView::Publishing, events) is Done ==> error_count(
            run(UnitStateView::Publishing, events),
        ) + sent_count(run(UnitStateView::Publishing, events)) == 1,
        !(state_after(UnitStateView::Publishing, events) is AwaitingAccess),
    decreases events.len(),
{
    if events.len() > 0 {
        let next = step_spec(UnitStateView::Publishing, events[0]);
        let rest = events.drop_first();
        lemma_count_cons(next.1, run(next.0, rest));
        if next.0 is Done {
            lemma_done_is_final(rest);
        } else {
            lemma_publishing_run(rest);
        }
    }
}

/// What holds of every run of a unit from any state: it publishes at most
/// once, logs at most one error and at most one success, and logs a success
/// only for a publish of this run or one that was already under way.
pub proof fn lemma_run_bounds(state: UnitStateView, events: Seq<UnitEvent>)
    ensures
        publish_count(run(state, events)) <= 1,
        error_count(run(state, events)) + sent_count(run(state, events)) <= 1,
        state is AwaitingAccess && sent_count(run(state, events)) == 1 ==> publish_count(
            run(state, events),
        ) == 1,
        state is AwaitingAccess && state_after(state, events) is Done ==> error_count(
            run(state, events),
        ) + sent_count(run(state, events)) == 1,
        state is AwaitingAccess && !state->message.is_eligible() ==> publish_count(
            run(state, events),
        ) == 0,
    decreases events.len(),
{
    if events.len() > 0 {
        let next = step_spec(state, events[0]);
        let rest = events.drop_first();
        lemma_count_cons(next.1, run(next.0, rest));
        match next.0 {
            UnitStateView::Done => {
                lemma_done_is_final(rest);
            },
            UnitStateView::Publishing => {
                lemma_publishing_run(rest);
            },
            UnitStateView::AwaitingAccess { message } => {
                lemma_run_bounds(next.0, rest);
            },
        }
    }
}

/// A datagram whose bytes are not text is never published, and exactly one
/// error is logged for it, whatever the caller reports afterwards.
pub proof fn lemma_invalid_text_dropped(datagram: Seq<u8>, events: Seq<UnitEvent>)
    requires
        !valid_utf8(datagram),
    ensures
        publish_count(trace(datagram, events)) == 0,
        error_count(trace(datagram, events)) == 1,
        trace(datagram, events)[0] == UnitActionView::ReportError(DropReason::InvalidText),
        is_complete(datagram, events),
{
    lemma_done_is_final(events);
    lemma_count_cons(start_spec(datagram).1, run(start_spec(datagram).0, events));
}

/// A datagram that is text without a delimiter is never published, and once
/// its unit is done exactly one error has been logged for it.
pub proof fn lemma_unframed_text_dropped(datagram: Seq<u8>, events: Seq<UnitEvent>)
    requires
        valid_utf8(datagram),
        !has_delimiter(decode_utf8(datagram)),
    ensures
        publish_count(trace(datagram, events)) == 0,
        error_count(trace(datagram, events)) <= 1,
        is_complete(datagram, events) ==> error_count(trace(datagram, events)) == 1,
        sent_count(trace(datagram, events)) == 0,
{
    lemma_topic_len(decode_utf8(datagram));
    let begun = start_spec(datagram);
    lemma_run_bounds(begun.0, events);
    lemma_count_cons(begun.1, run(begun.0, events));
}

/// A datagram that is text with a delimiter is published exactly once when
/// access is granted and the publish succeeds: the request holds its topic
/// and its payload, one success is logged and no error.
pub proof fn lemma_framed_text_published(datagram: Seq<u8>, events: Seq<UnitEvent>)
    requires
        valid_utf8(datagram),
        has_delimiter(decode_utf8(datagram)),
        events.len() >= 2,
        events[0] == UnitEvent::AccessGranted,
        events[1] == UnitEvent::PublishSucceeded,
    ensures
        trace(datagram, events)[0] == UnitActionView::Acquire,
        trace(datagram, events)[1] == UnitActionView::Publish(
            request_for(
                topic_of(decode_utf8(datagram)),
                payload_of(decode_utf8(datagram)).unwrap(),
            ),
        ),
        trace(datagram, events)[2] == UnitActionView::ReportSent,
        publish_count(trace(datagram, events)) == 1,
        sent_count(trace(datagram, events)) == 1,
        error_count(trace(datagram, events)) == 0,
        is_complete(datagram, events),
{
    lemma_topic_len(decode_utf8(datagram));
    let begun = start_spec(datagram);
    let first = step_spec(begun.0, events[0]);
    let rest = events.drop_first();
    let second = step_spec(first.0, rest[0]);
    let last = rest.drop_first();
    assert(rest[0] == events[1]);
    lemma_count_cons(begun.1, run(begun.0, events));
    lemma_count_cons(first.1, run(first.0, rest));
    lemma_count_cons(second.1, run(second.0, last));
    lemma_done_is_final(last);
    assert(run(begun.0, events)[0] == first.1);
    assert(run(begun.0, events)[1] == run(first.0, rest)[0]);
    assert(state_after(begun.0, events) == state_after(first.0, rest));
    assert(state_after(first.0, rest) == state_after(second.0, last));
}

/// A datagram is either forwarded whole or dropped whole: its unit publishes
/// at most once, and a publish carries the topic and the payload of the
/// datagram's text, at the lowest quality of service and not retained.
pub proof fn lemma_publish_is_verbatim(datagram: Seq<u8>, events: Seq<UnitEvent>, at: int)
    requires
        0 <= at < trace(datagram, events).len(),
        trace(datagram, events)[at] is Publish,
    ensures
        publish_count(trace(datagram, events)) == 1,
        valid_utf8(datagram),
        has_delimiter(decode_utf8(datagram)),
        trace(datagram, events)[at]->Publish_0 == request_for(
            topic_of(decode_utf8(datagram)),
            payload_of(decode_utf8(datagram)).unwrap(),
        ),
{
    let begun = start_spec(datagram);
    lemma_count_cons(begun.1, run(begun.0, events));
    if valid_utf8(datagram) {
        lemma_topic_len(decode_utf8(datagram));
        lemma_run_bounds(begun.0, events);
        lemma_publish_in_run(begun.0, events, at - 1);
    } else {
        lemma_done_in_run(events, at - 1);
    }
}

/// A run from the finished state holds no publish.
proof fn lemma_done_in_run(events: Seq<UnitEvent>, at: int)
    requires
        0 <= at < run(UnitStateView::Done, events).len(),
    ensures
        run(UnitStateView::Done, events)[at] is Nothing,
    decreases events.len(),
{
    if at > 0 {
        lemma_done_in_run(events.drop_first(), at - 1);
    }
}

/// A run from the publishing state holds no publish.
proof fn lemma_publishing_in_run(events: Seq<UnitEvent>, at: int)
    requires
        0 <= at < run(UnitStateView::Publishing, events).len(),
    ensures
        !(run(UnitStateView::Publishing, events)[at] is Publish),
    decreases events.len(),
{
    if at > 0 {
        let next = step_spec(UnitStateView::Publishing, events[0]);
        if next.0 is Done {
            lemma_done_in_run(events.drop_first(), at - 1);
        } else {
            lemma_publishing_in_run(events.drop_first(), at - 1);
        }
    }
}

/// A publish in a run from the waiting state answers a grant of access, holds
/// the waiting message, and is the only publish of the run.
proof fn lemma_publish_in_run(state: UnitStateView, events: Seq<UnitEvent>, at: int)
    requires
        state is AwaitingAccess,
        0 <= at < run(state, events).len(),
        run(state, events)[at] is Publish,
    ensures
        state->message.is_eligible(),
        events[at] == UnitEvent::AccessGranted,
        run(state, events)[at]->Publish_0 == request_for(
            state->message.topic.unwrap(),
            state->message.payload.unwrap(),
        ),
        publish_count(run(state, events)) == 1,
    decreases events.len(),
{
    lemma_run_len(state, events);
    let next = step_spec(state, events[0]);
    let rest = events.drop_first();
    lemma_count_cons(next.1, run(next.0, rest));
    lemma_run_bounds(next.0, rest);
    if at > 0 {
        assert(run(state, events)[at] == run(next.0, rest)[at - 1]);
        assert(events[at] == rest[at - 1]);
        match next.0 {
            UnitStateView::Done => {
                lemma_done_in_run(rest, at - 1);
            },
            UnitStateView::Publishing => {
                lemma_publishing_in_run(rest, at - 1);
            },
            UnitStateView::AwaitingAccess { message } => {
                lemma_publish_in_run(next.0, rest, at - 1);
            },
        }
    } else {
        if next.0 is Publishing {
            lemma_publishing_run(rest);
        }
    }
}

/// A unit publishes only in answer to a grant of exclusive access to the
/// connection: the event just before a publish is that grant.
pub proof fn lemma_publish_needs_access(datagram: Seq<u8>, events: Seq<UnitEvent>, at: int)
    requires
        0 <= at < trace(datagram, events).len(),
        trace(datagram, events)[at] is Publish,
    ensures
        at >= 1,
        events[at - 1] == UnitEvent::AccessGranted,
{
    let begun = start_spec(datagram);
    lemma_run_len(begun.0, events);
    if valid_utf8(datagram) {
        lemma_publish_in_run(begun.0, events, at - 1);
    } else {
        lemma_done_in_run(events, at - 1);
    }
}

/// The run of a unit is a function of the datagram and the events alone:
/// the same bytes and the same reports give the same actions, so a repeated
/// datagram is published again and nothing is deduplicated.
pub proof fn lemma_repeat_is_identical(
    first: Seq<u8>,
    second: Seq<u8>,
    events: Seq<UnitEvent>,
)
    requires
        first == second,
    ensures
        decode_bytes(first) == decode_bytes(second),
        start_spec(first) == start_spec(second),
        trace(first, events) == trace(second, events),
        publish_count(trace(first, events)) == publish_count(trace(second, events)),
{
}

} // verus!
