//! The life cycle of a source's connection, as a function from the phase it
//! is in and what happened to the next phase and what to do next. Whoever
//! drives a source carries out the command and reports back the event.

use crate::order_book::OrderBookUpdate;
use vstd::prelude::*;

verus! {

/// How long to wait for the next message before the connection counts as lost.
pub const READ_TIMEOUT_SECS: u64 = 15;

/// How long to wait after a failure before connecting again.
pub const RETRY_DELAY_SECS: u64 = 2;

/// Why a connection attempt came to an end.
#[derive(Debug, Clone, Copy, PartialEq, Eq, Structural)]
pub enum Failure {
    /// The connection could not be opened or broke.
    Connection,
    /// No message came within the read timeout.
    Timeout,
    /// A message was not of the expected shape, or a price or amount in it
    /// was no decimal.
    Decode,
    /// The update could not be handed on.
    Send,
}

/// Where a source stands in its cycle.
#[derive(Debug, Clone, Copy, PartialEq, Eq, Structural)]
pub enum Phase {
    Disconnected,
    Connecting,
    Handshaking,
    Streaming,
}

/// What happened since the last command.
#[derive(Debug)]
pub enum Event {
    /// The source is started, or the retry delay has passed.
    Wake,
    /// The connection is open.
    Connected,
    /// The subscription message has been sent.
    Subscribed,
    /// A data message came and was decoded.
    Update(OrderBookUpdate),
    /// A message came that carries no data.
    Skipped,
    /// The update has been handed on.
    Delivered,
    /// The other side ended the stream.
    Closed,
    /// Anything that went wrong.
    Failed(Failure),
}

/// What to do next.
#[derive(Debug)]
pub enum Command {
    /// Open the connection.
    Connect,
    /// Send the subscription message.
    Subscribe,
    /// Wait for the next message, no longer than the given time.
    Receive { timeout_secs: u64 },
    /// Hand the update on.
    Deliver(OrderBookUpdate),
    /// Drop the connection and wake up after the given time.
    Retry { delay_secs: u64 },
}

/// The cycle: a source connects, subscribes if it has to, then receives
/// message after message and hands on each update; anything else drops the
/// connection and starts over after the retry delay.
pub open spec fn advance_spec(phase: Phase, event: Event, handshake: bool) -> (Phase, Command) {
    match (phase, event) {
        (Phase::Disconnected, Event::Wake) => (Phase::Connecting, Command::Connect),
        (Phase::Connecting, Event::Connected) => if handshake {
            (Phase::Handshaking, Command::Subscribe)
        } else {
            (Phase::Streaming, Command::Receive { timeout_secs: READ_TIMEOUT_SECS })
        },
        (Phase::Handshaking, Event::Subscribed) => (
            Phase::Streaming,
            Command::Receive { timeout_secs: READ_TIMEOUT_SECS },
        ),
        (Phase::Streaming, Event::Skipped) => (
            Phase::Streaming,
            Command::Receive { timeout_secs: READ_TIMEOUT_SECS },
        ),
        (Phase::Streaming, Event::Update(update)) => (Phase::Streaming, Command::Deliver(update)),
        (Phase::Streaming, Event::Delivered) => (
            Phase::Streaming,
            Command::Receive { timeout_secs: READ_TIMEOUT_SECS },
        ),
        _ => (Phase::Disconnected, Command::Retry { delay_secs: RETRY_DELAY_SECS }),
    }
}

/// The next phase of a source and what it is to do, given the phase it is in
/// and what happened. `handshake` says whether the source has to subscribe
/// before data comes.
pub fn advance(phase: Phase, event: Event, handshake: bool) -> (next: (Phase, Command))
    ensures
        next == advance_spec(phase, event, handshake),
        event is Failed || event is Closed ==> next == (
            Phase::Disconnected,
            Command::Retry { delay_secs: RETRY_DELAY_SECS },
        ),
        next.1 is Deliver ==> phase == Phase::Streaming && event == Event::Update(
            next.1->Deliver_0,
        ),
{
    match (phase, event) {
        (Phase::Disconnected, Event::Wake) => (Phase::Connecting, Command::Connect),
        (Phase::Connecting, Event::Connected) => {
            if handshake {
                (Phase::Handshaking, Command::Subscribe)
            } else {
                (Phase::Streaming, Command::Receive { timeout_secs: READ_TIMEOUT_SECS })
            }
        },
        (Phase::Handshaking, Event::Subscribed) => (
            Phase::Streaming,
            Command::Receive { timeout_secs: READ_TIMEOUT_SECS },
        ),
        (Phase::Streaming, Event::Skipped) => (
            Phase::Streaming,
            Command::Receive { timeout_secs: READ_TIMEOUT_SECS },
        ),
        (Phase::Streaming, Event::Update(update)) => (Phase::Streaming, Command::Deliver(update)),
        (Phase::Streaming, Event::Delivered) => (
            Phase::Streaming,
            Command::Receive { timeout_secs: READ_TIMEOUT_SECS },
        ),
        _ => (Phase::Disconnected, Command::Retry { delay_secs: RETRY_DELAY_SECS }),
    }
}

/// A source never comes to rest: whatever goes wrong in whatever phase, it
/// drops the connection, waits the retry delay, and its next waking has it
/// connect again.
pub proof fn lemma_failure_restarts(phase: Phase, failure: Failure, handshake: bool)
    ensures
        advance_spec(phase, Event::Failed(failure), handshake) == (
            Phase::Disconnected,
            Command::Retry { delay_secs: RETRY_DELAY_SECS },
        ),
        advance_spec(Phase::Disconnected, Event::Wake, handshake) == (
            Phase::Connecting,
            Command::Connect,
        ),
{
}

/// An update is handed on only while streaming, and only the update that
/// just came: a failure hands on nothing.
pub proof fn lemma_delivers_only_updates(phase: Phase, event: Event, handshake: bool)
    requires
        advance_spec(phase, event, handshake).1 is Deliver,
    ensures
        phase == Phase::Streaming,
        event == Event::Update(advance_spec(phase, event, handshake).1->Deliver_0),
{
}

} // verus!
