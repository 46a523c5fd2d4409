//! The synchronization cycle as a state machine.
//!
//! Once per interval the driver enumerates the serial ports and hands them over in a tick.
//! If the device is there, the machine has the driver open the port and exchange one line
//! for the read and, where store and device disagree, one more for the write; then it is
//! idle again, whatever came of the cycle. The machine itself performs no I/O: it decides,
//! and the driver acts. Nothing but the store outlives a cycle.

use crate::codec::{
    decode_read_response, decode_write_response, is_hex_digit, lemma_data_line, read_outcome,
    read_request, read_request_text, write_outcome, write_request, write_request_text,
    ProtocolError,
};
use crate::text::is_whitespace;
use crate::layout::SNAPSHOT_BYTES;
use crate::port::{device_port, find_port, PortInfo};
use crate::slot::SlotRecord;
use crate::reconcile::{changed_slots, reconcile, reconciled};
use crate::store::SharedStore;
use vstd::prelude::*;

verus! {

/// Time between the end of one cycle and the start of the next, in milliseconds.
pub const INTERVAL_MS: u64 = 1000;

/// Time that the device is given for an answer, in milliseconds.
pub const TIMEOUT_MS: u64 = 500;

/// How far a cycle has come.
#[derive(Clone, Copy, Debug, PartialEq, Eq, Structural)]
pub enum Stage {
    /// The read request is out; its response is awaited.
    AwaitingData,
    /// The write request is out; its response is awaited.
    AwaitingAck,
}

/// The state of the synchronization loop.
#[derive(Clone, Copy, Debug, PartialEq, Eq, Structural)]
pub enum SyncState {
    /// No cycle is in progress.
    Idle,
    /// The port is open and a cycle is in progress.
    Syncing(Stage),
}

/// What the driver reports to the machine.
#[derive(Debug, PartialEq, Eq)]
pub enum SyncEvent {
    /// The interval has elapsed; these are the serial ports of the system.
    Tick { ports: Vec<PortInfo> },
    /// The device answered with the line `text`, which arrived at the Unix time `timestamp`.
    Line { text: String, timestamp: u64 },
    /// The port could not be opened, the device did not answer in time, or the link failed
    /// in another way.
    LinkFailed,
}

/// How a cycle ended.
#[derive(Clone, Copy, Debug, PartialEq, Eq, Structural)]
pub enum CycleEnd {
    /// The device is behind no port.
    NoDevice,
    /// The snapshot was merged and nothing had to be written.
    InStep,
    /// The snapshot was merged and the device has accepted the write.
    Written,
    /// The link failed.
    LinkFailed,
    /// The device answered out of protocol, or reported an error.
    Rejected(ProtocolError),
    /// A line arrived although none was awaited.
    OutOfTurn,
}

/// What the machine asks of the driver.
#[derive(Debug, PartialEq, Eq)]
pub enum SyncAction {
    /// The cycle is over: close the port if it is open, and report the ports of the system
    /// in a tick after `pause_ms` milliseconds.
    Wait { end: CycleEnd, pause_ms: u64 },
    /// Open `port` for reads that give up after `timeout_ms` milliseconds, send `request`
    /// and report the line that comes back.
    Open { port: String, timeout_ms: u64, request: String },
    /// Send `request` on the open connection and report the line that comes back.
    Send { request: String },
}

/// An action as contracts speak of it, with its texts as sequences of characters.
pub enum Plan {
    /// See [`SyncAction::Wait`].
    Wait { end: CycleEnd, pause_ms: u64 },
    /// See [`SyncAction::Open`].
    Open { port: Seq<char>, timeout_ms: u64, request: Seq<char> },
    /// See [`SyncAction::Send`].
    Send { request: Seq<char> },
}

/// The end of a cycle: the next one begins after the interval.
pub open spec fn ending(end: CycleEnd) -> Plan {
    Plan::Wait { end, pause_ms: INTERVAL_MS }
}

impl View for SyncAction {
    type V = Plan;

    open spec fn view(&self) -> Plan {
        match self {
            SyncAction::Wait { end, pause_ms } => Plan::Wait { end: *end, pause_ms: *pause_ms },
            SyncAction::Open { port, timeout_ms, request } => Plan::Open {
                port: port@,
                timeout_ms: *timeout_ms,
                request: request@,
            },
            SyncAction::Send { request } => Plan::Send { request: request@ },
        }
    }
}

/// The state that follows, the action asked for, and the store as it is left, when
/// `event` arrives in `state` with the store holding `store`.
pub open spec fn advance(state: SyncState, event: SyncEvent, store: Map<usize, SlotRecord>) -> (
    SyncState,
    Plan,
    Map<usize, SlotRecord>,
) {
    match event {
        SyncEvent::Tick { ports } => match device_port(ports@) {
            None => (SyncState::Idle, ending(CycleEnd::NoDevice), store),
            Some(port) => (
                SyncState::Syncing(Stage::AwaitingData),
                Plan::Open { port, timeout_ms: TIMEOUT_MS, request: read_request_text() },
                store,
            ),
        },
        SyncEvent::LinkFailed => (SyncState::Idle, ending(CycleEnd::LinkFailed), store),
        SyncEvent::Line { text, timestamp } => match state {
            SyncState::Idle => (SyncState::Idle, ending(CycleEnd::OutOfTurn), store),
            SyncState::Syncing(Stage::AwaitingData) => match read_outcome(text@, timestamp) {
                Err(e) => (SyncState::Idle, ending(CycleEnd::Rejected(e)), store),
                Ok(snapshot) => match write_request_text(changed_slots(store, snapshot)) {
                    None => (
                        SyncState::Idle,
                        ending(CycleEnd::InStep),
                        reconciled(store, snapshot),
                    ),
                    Some(request) => (
                        SyncState::Syncing(Stage::AwaitingAck),
                        Plan::Send { request },
                        reconciled(store, snapshot),
                    ),
                },
            },
            SyncState::Syncing(Stage::AwaitingAck) => match write_outcome(text@) {
                Ok(()) => (SyncState::Idle, ending(CycleEnd::Written), store),
                Err(e) => (SyncState::Idle, ending(CycleEnd::Rejected(e)), store),
            },
        },
    }
}

/// The machine asks the driver to wait exactly when it is idle afterwards: an action that
/// performs I/O is asked for only in the middle of a cycle.
pub proof fn lemma_waits_when_idle(
    state: SyncState,
    event: SyncEvent,
    store: Map<usize, SlotRecord>,
)
    ensures
        advance(state, event, store).0 == SyncState::Idle <==> advance(
            state,
            event,
            store,
        ).1 is Wait,
{
}

/// A failure of the link ends the cycle and leaves the store alone, in every state.
pub proof fn lemma_link_failure(state: SyncState, store: Map<usize, SlotRecord>)
    ensures
        advance(state, SyncEvent::LinkFailed, store) == (
            SyncState::Idle,
            ending(CycleEnd::LinkFailed),
            store,
        ),
{
}

/// A cycle takes two responses at most: whatever they say, the machine is idle after the
/// second.
pub proof fn lemma_cycle_ends(
    state: SyncState,
    first: SyncEvent,
    second: SyncEvent,
    store: Map<usize, SlotRecord>,
)
    requires
        first is Line,
        second is Line,
    ensures
        ({
            let (between, _, merged) = advance(state, first, store);
            advance(between, second, merged).0 == SyncState::Idle
        }),
{
}

/// The store changes only when a response to a read gives a snapshot, and then it
/// becomes what merging that snapshot makes of it.
pub proof fn lemma_store_follows_snapshots(
    state: SyncState,
    event: SyncEvent,
    store: Map<usize, SlotRecord>,
)
    ensures
        advance(state, event, store).2 == match event {
            SyncEvent::Line { text, timestamp } => if state == SyncState::Syncing(
                Stage::AwaitingData,
            ) {
                match read_outcome(text@, timestamp) {
                    Ok(snapshot) => reconciled(store, snapshot),
                    Err(_) => store,
                }
            } else {
                store
            },
            _ => store,
        },
{
}

/// Whatever arrives in whatever state, the store loses no slot and no programmed value.
pub proof fn lemma_nothing_lost(state: SyncState, event: SyncEvent, store: Map<usize, SlotRecord>)
    ensures
        forall|index: usize| #[trigger]
            store.contains_key(index) ==> {
                let left = advance(state, event, store).2;
                &&& left.contains_key(index)
                &&& left[index].programmed == store[index].programmed
            },
{
}

/// A response to a read that announces hexadecimal text of another length than a
/// snapshot's ends the cycle with a length error and leaves the store untouched.
pub proof fn lemma_short_data_rejected(
    line: String,
    text: Seq<char>,
    rest: Seq<char>,
    timestamp: u64,
    store: Map<usize, SlotRecord>,
)
    requires
        line@ == "DATA "@ + text + rest,
        text.len() > 0,
        text.len() != 2 * SNAPSHOT_BYTES,
        forall|i: int| 0 <= i < text.len() ==> is_hex_digit(#[trigger] text[i]),
        rest.len() == 0 || is_whitespace(rest[0]),
    ensures
        advance(
            SyncState::Syncing(Stage::AwaitingData),
            SyncEvent::Line { text: line, timestamp },
            store,
        ) == (
            SyncState::Idle,
            ending(CycleEnd::Rejected(ProtocolError::InvalidDataLength)),
            store,
        ),
{
    lemma_data_line(text, rest);
}

/// The action that ends a cycle.
fn pause(end: CycleEnd) -> (action: SyncAction)
    ensures
        action@ == ending(end),
{
    SyncAction::Wait { end, pause_ms: INTERVAL_MS }
}

/// Takes one event and decides what happens next. The store changes only when a snapshot
/// arrives; everything else leaves it as it is.
pub fn step(state: SyncState, event: SyncEvent, store: &mut SharedStore) -> (r: (
    SyncState,
    SyncAction,
))
    ensures
        (r.0, r.1@, final(store)@) == advance(state, event, old(store)@),
{
    match event {
        SyncEvent::Tick { ports } => match find_port(&ports) {
            None => (SyncState::Idle, pause(CycleEnd::NoDevice)),
            Some(port) => (
                SyncState::Syncing(Stage::AwaitingData),
                SyncAction::Open { port, timeout_ms: TIMEOUT_MS, request: read_request() },
            ),
        },
        SyncEvent::LinkFailed => (SyncState::Idle, pause(CycleEnd::LinkFailed)),
        SyncEvent::Line { text, timestamp } => match state {
            SyncState::Idle => (SyncState::Idle, pause(CycleEnd::OutOfTurn)),
            SyncState::Syncing(Stage::AwaitingData) => {
                match decode_read_response(text.as_str(), timestamp) {
                    Err(e) => (SyncState::Idle, pause(CycleEnd::Rejected(e))),
                    Ok(snapshot) => {
                        let changed = reconcile(&snapshot, store);
                        match write_request(&changed) {
                            None => (SyncState::Idle, pause(CycleEnd::InStep)),
                            Some(request) => (
                                SyncState::Syncing(Stage::AwaitingAck),
                                SyncAction::Send { request },
                            ),
                        }
                    },
                }
            },
            SyncState::Syncing(Stage::AwaitingAck) => match decode_write_response(text.as_str()) {
                Ok(()) => (SyncState::Idle, pause(CycleEnd::Written)),
                Err(e) => (SyncState::Idle, pause(CycleEnd::Rejected(e))),
            },
        },
    }
}

} // verus!
