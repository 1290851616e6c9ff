//! The life of the bridge: the broker connection is created, then connected,
//! and only then does the receive loop run. The machine here takes what
//! happened and says what to do next.

use vstd::prelude::*;
use crate::receiver::ReceiveOutcome;

verus! {

/// Keep-alive interval of the broker connection, in seconds.
pub const KEEP_ALIVE_SECS: u64 = 20;

/// Exit status of the process when startup fails.
pub const STARTUP_FAILURE_STATUS: i32 = 1;

/// Value above which the running count of received datagrams starts over.
pub const COUNT_LIMIT: u64 = 1000000;

/// Where the bridge stands.
#[derive(Debug, Clone, Copy, PartialEq, Eq, Structural)]
pub enum Phase {
    /// Nothing is built yet.
    Uninitialized,
    /// The broker client is built and not yet connected.
    Created,
    /// The connection is up and the receive loop runs. `received` is the
    /// running count of datagrams, kept for diagnostics.
    Receiving { received: u64 },
    /// The connection is up, but the receive loop has ended after a socket
    /// error; the process stays alive.
    Halted,
    /// Startup failed; the process exits.
    Aborted,
}

/// What happened outside.
#[derive(Debug, Clone, Copy, PartialEq, Eq, Structural)]
pub enum BridgeEvent {
    /// The broker client was built.
    ClientCreated,
    /// The broker client could not be built.
    ClientFailed,
    /// The connect succeeded.
    Connected,
    /// The connect failed.
    ConnectFailed,
    /// A receive call returned.
    Received(ReceiveOutcome),
}

/// What to do next.
#[derive(Debug, Clone, Copy, PartialEq, Eq, Structural)]
pub enum BridgeAction {
    /// Connect the client with this keep-alive interval.
    Connect { keep_alive_secs: u64 },
    /// Issue a receive call.
    Poll,
    /// Dispatch the first `count` slots of the pool, one unit each, then
    /// issue the next receive call.
    Dispatch { count: usize },
    /// Log the failure and exit the process with this status.
    Exit { status: i32 },
    /// Log the socket error and stop receiving.
    Halt,
    /// The event did not fit the phase: do nothing.
    Nothing,
}

impl Phase {
    /// The broker connection is connected, so publishing is allowed.
    pub open spec fn is_connected(self) -> bool {
        self is Receiving || self is Halted
    }

    /// The running count is within its limit.
    pub open spec fn wf(self) -> bool {
        self matches Phase::Receiving { received } ==> received <= COUNT_LIMIT
    }

    /// Nothing further will ever be received.
    pub open spec fn is_final(self) -> bool {
        self is Halted || self is Aborted
    }
}

/// The running count after `count` more datagrams: it starts over at one
/// once it would pass `COUNT_LIMIT`.
pub open spec fn next_count(received: u64, count: usize) -> u64 {
    if received + count > COUNT_LIMIT {
        1
    } else {
        (received + count) as u64
    }
}

/// The phase that follows and the action to take.
pub open spec fn bridge_step(phase: Phase, event: BridgeEvent) -> (Phase, BridgeAction) {
    match (phase, event) {
        (Phase::Uninitialized, BridgeEvent::ClientCreated) => (
            Phase::Created,
            BridgeAction::Connect { keep_alive_secs: KEEP_ALIVE_SECS },
        ),
        (Phase::Uninitialized, BridgeEvent::ClientFailed) => (
            Phase::Aborted,
            BridgeAction::Exit { status: STARTUP_FAILURE_STATUS },
        ),
        (Phase::Created, BridgeEvent::Connected) => (
            Phase::Receiving { received: 0 },
            BridgeAction::Poll,
        ),
        (Phase::Created, BridgeEvent::ConnectFailed) => (
            Phase::Aborted,
            BridgeAction::Exit { status: STARTUP_FAILURE_STATUS },
        ),
        (
            Phase::Receiving { received },
            BridgeEvent::Received(ReceiveOutcome::Batch { count }),
        ) => (
            Phase::Receiving { received: next_count(received, count) },
            BridgeAction::Dispatch { count },
        ),
        (Phase::Receiving { received }, BridgeEvent::Received(ReceiveOutcome::NoData)) => (
            phase,
            BridgeAction::Poll,
        ),
        (Phase::Receiving { received }, BridgeEvent::Received(ReceiveOutcome::Failed)) => (
            Phase::Halted,
            BridgeAction::Halt,
        ),
        _ => (phase, BridgeAction::Nothing),
    }
}

/// Counts `count` more datagrams.
pub fn advance_count(received: u64, count: usize) -> (total: u64)
    ensures
        total == next_count(received, count),
        total <= COUNT_LIMIT,
{
    if received > COUNT_LIMIT || count as u64 > COUNT_LIMIT - received {
        1
    } else {
        received + count as u64
    }
}

/// Takes the bridge from one phase to the next.
///
/// A client that cannot be built or connected aborts the startup. Once
/// connected, every batch is dispatched, "no data" polls again, and a socket
/// error halts the loop for good. An event that does not fit the phase
/// changes nothing.
pub fn on_event(phase: Phase, event: BridgeEvent) -> (next: (Phase, BridgeAction))
    ensures
        next == bridge_step(phase, event),
        phase.wf() ==> next.0.wf(),
{
    match phase {
        Phase::Uninitialized => match event {
            BridgeEvent::ClientCreated => (
                Phase::Created,
                BridgeAction::Connect { keep_alive_secs: KEEP_ALIVE_SECS },
            ),
            BridgeEvent::ClientFailed => (
                Phase::Aborted,
                BridgeAction::Exit { status: STARTUP_FAILURE_STATUS },
            ),
            _ => (phase, BridgeAction::Nothing),
        },
        Phase::Created => match event {
            BridgeEvent::Connected => (Phase::Receiving { received: 0 }, BridgeAction::Poll),
            BridgeEvent::ConnectFailed => (
                Phase::Aborted,
                BridgeAction::Exit { status: STARTUP_FAILURE_STATUS },
            ),
            _ => (phase, BridgeAction::Nothing),
        },
        Phase::Receiving { received } => match event {
            BridgeEvent::Received(ReceiveOutcome::Batch { count }) => (
                Phase::Receiving { received: advance_count(received, count) },
                BridgeAction::Dispatch { count },
            ),
            BridgeEvent::Received(ReceiveOutcome::NoData) => (phase, BridgeAction::Poll),
            BridgeEvent::Received(ReceiveOutcome::Failed) => (Phase::Halted, BridgeAction::Halt),
            _ => (phase, BridgeAction::Nothing),
        },
        Phase::Halted => (phase, BridgeAction::Nothing),
        Phase::Aborted => (phase, BridgeAction::Nothing),
    }
}

/// The actions of the bridge over a sequence of events, one per event.
pub open spec fn bridge_run(phase: Phase, events: Seq<BridgeEvent>) -> Seq<BridgeAction>
    decreases events.len(),
{
    if events.len() == 0 {
        Seq::empty()
    } else {
        let next = bridge_step(phase, events[0]);
        seq![next.1] + bridge_run(next.0, events.drop_first())
    }
}

/// The phase that the bridge reaches over a sequence of events.
pub open spec fn phase_after(phase: Phase, events: Seq<BridgeEvent>) -> Phase
    decreases events.len(),
{
    if events.len() == 0 {
        phase
    } else {
        phase_after(bridge_step(phase, events[0]).0, events.drop_first())
    }
}

/// Number of datagrams that `actions` hand to dispatch units.
pub open spec fn dispatched(actions: Seq<BridgeAction>) -> nat
    decreases actions.len(),
{
    if actions.len() == 0 {
        0
    } else {
        (match actions[0] {
            BridgeAction::Dispatch { count } => count as nat,
            _ => 0nat,
        }) + dispatched(actions.drop_first())
    }
}

/// Datagrams are dispatched only while the connection is up and the loop
/// runs, and the loop is entered only by a successful connect.
pub proof fn lemma_dispatch_needs_connection(phase: Phase, event: BridgeEvent)
    ensures
        bridge_step(phase, event).1 is Dispatch ==> phase is Receiving && phase.is_connected(),
        bridge_step(phase, event).0 is Receiving ==> phase is Receiving || (phase is Created
            && event == BridgeEvent::Connected),
        bridge_step(phase, event).0.is_connected() ==> phase.is_connected() || (phase is Created
            && event == BridgeEvent::Connected),
{
}

/// A receive call that reports `count` datagrams has exactly `count`
/// datagrams dispatched, whatever was received before.
pub proof fn lemma_batch_is_dispatched(received: u64, count: usize)
    ensures
        bridge_step(
            Phase::Receiving { received },
            BridgeEvent::Received(ReceiveOutcome::Batch { count }),
        ).1 == (BridgeAction::Dispatch { count }),
        bridge_step(
            Phase::Receiving { received },
            BridgeEvent::Received(ReceiveOutcome::Batch { count }),
        ).0 is Receiving,
{
}

/// "No data" is no error: the loop goes on polling in the same phase.
pub proof fn lemma_no_data_polls_again(received: u64)
    ensures
        bridge_step(
            Phase::Receiving { received },
            BridgeEvent::Received(ReceiveOutcome::NoData),
        ) == (Phase::Receiving { received }, BridgeAction::Poll),
{
}

/// The running count stays within its limit: a step from a well-formed
/// phase gives a well-formed phase, and the bridge starts in one.
pub proof fn lemma_count_bounded(phase: Phase, event: BridgeEvent)
    requires
        phase.wf(),
    ensures
        bridge_step(phase, event).0.wf(),
        Phase::Uninitialized.wf(),
{
}

/// Once the bridge is halted or aborted, it stays so and dispatches nothing.
pub proof fn lemma_final_phase(phase: Phase, events: Seq<BridgeEvent>)
    requires
        phase.is_final(),
    ensures
        phase_after(phase, events) == phase,
        dispatched(bridge_run(phase, events)) == 0,
        forall|i: int|
            0 <= i < bridge_run(phase, events).len() ==> bridge_run(phase, events)[i]
                == BridgeAction::Nothing,
    decreases events.len(),
{
    if events.len() > 0 {
        let rest = events.drop_first();
        lemma_final_phase(phase, rest);
        let tail = bridge_run(phase, rest);
        let all = seq![BridgeAction::Nothing] + tail;
        assert(all.drop_first() == tail);
        assert forall|i: int| 0 <= i < all.len() implies all[i] == BridgeAction::Nothing by {
            if i > 0 {
                assert(all[i] == tail[i - 1]);
            }
        }
    }
}

/// One step of a run, written out.
proof fn lemma_run_unfold(phase: Phase, events: Seq<BridgeEvent>)
    requires
        events.len() > 0,
    ensures
        phase_after(phase, events) == phase_after(
            bridge_step(phase, events[0]).0,
            events.drop_first(),
        ),
        bridge_run(phase, events).len() == 1 + bridge_run(
            bridge_step(phase, events[0]).0,
            events.drop_first(),
        ).len(),
        bridge_run(phase, events)[0] == bridge_step(phase, events[0]).1,
        forall|i: int|
            1 <= i < bridge_run(phase, events).len() ==> bridge_run(phase, events)[i]
                == bridge_run(bridge_step(phase, events[0]).0, events.drop_first())[i - 1],
        dispatched(bridge_run(phase, events)) == (match bridge_step(phase, events[0]).1 {
            BridgeAction::Dispatch { count } => count as nat,
            _ => 0nat,
        }) + dispatched(bridge_run(bridge_step(phase, events[0]).0, events.drop_first())),
{
    let next = bridge_step(phase, events[0]);
    let tail = bridge_run(next.0, events.drop_first());
    let all = seq![next.1] + tail;
    assert(all.drop_first() == tail);
    assert(all[0] == next.1);
}

/// A broker client that cannot be built makes the process exit with a status
/// that is not zero, and no datagram is ever dispatched, whatever happens
/// afterwards.
pub proof fn lemma_client_failure_is_fatal(events: Seq<BridgeEvent>)
    requires
        events.len() >= 1,
        events[0] == BridgeEvent::ClientFailed,
    ensures
        bridge_run(Phase::Uninitialized, events)[0] == (BridgeAction::Exit {
            status: STARTUP_FAILURE_STATUS,
        }),
        STARTUP_FAILURE_STATUS != 0,
        phase_after(Phase::Uninitialized, events) is Aborted,
        dispatched(bridge_run(Phase::Uninitialized, events)) == 0,
{
    lemma_run_unfold(Phase::Uninitialized, events);
    lemma_final_phase(Phase::Aborted, events.drop_first());
}

/// A connect that fails at startup makes the process exit with a status that
/// is not zero, and no datagram is ever dispatched, whatever happens
/// afterwards.
pub proof fn lemma_connect_failure_is_fatal(events: Seq<BridgeEvent>)
    requires
        events.len() >= 2,
        events[0] == BridgeEvent::ClientCreated,
        events[1] == BridgeEvent::ConnectFailed,
    ensures
        bridge_run(Phase::Uninitialized, events)[1] == (BridgeAction::Exit {
            status: STARTUP_FAILURE_STATUS,
        }),
        STARTUP_FAILURE_STATUS != 0,
        phase_after(Phase::Uninitialized, events) is Aborted,
        dispatched(bridge_run(Phase::Uninitialized, events)) == 0,
{
    let rest = events.drop_first();
    lemma_run_unfold(Phase::Uninitialized, events);
    assert(rest[0] == events[1]);
    lemma_run_unfold(Phase::Created, rest);
    lemma_final_phase(Phase::Aborted, rest.drop_first());
}

/// A run holds one action for each event.
pub proof fn lemma_bridge_run_len(phase: Phase, events: Seq<BridgeEvent>)
    ensures
        bridge_run(phase, events).len() == events.len(),
    decreases events.len(),
{
    if events.len() > 0 {
        lemma_bridge_run_len(bridge_step(phase, events[0]).0, events.drop_first());
    }
}

/// The connection is connected before anything is dispatched: in every run
/// of the bridge from a phase without connection, a dispatch is preceded by
/// a successful connect.
pub proof fn lemma_dispatch_follows_connect(phase: Phase, events: Seq<BridgeEvent>, at: int)
    requires
        !phase.is_connected(),
        0 <= at < bridge_run(phase, events).len(),
        bridge_run(phase, events)[at] is Dispatch,
    ensures
        exists|j: int| 0 <= j < at && events[j] == BridgeEvent::Connected,
    decreases events.len(),
{
    lemma_bridge_run_len(phase, events);
    lemma_run_unfold(phase, events);
    let next = bridge_step(phase, events[0]);
    let rest = events.drop_first();
    lemma_bridge_run_len(next.0, rest);
    if at > 0 {
        if next.0.is_connected() {
            assert(events[0] == BridgeEvent::Connected);
        } else {
            lemma_dispatch_follows_connect(next.0, rest, at - 1);
            let j = choose|j: int| 0 <= j < at - 1 && rest[j] == BridgeEvent::Connected;
            assert(events[j + 1] == rest[j]);
        }
    }
}

} // verus!
