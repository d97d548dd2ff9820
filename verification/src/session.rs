//! Per-connection session lifecycle: `Handshaking` to `Open` to the
//! terminal `Closed`, with the action each transition demands.

use vstd::prelude::*;
use vstd::string::StringExecFns;

verus! {

/// Where a connection stands in its lifecycle.
#[derive(Clone, Copy, Debug, PartialEq, Eq, Structural)]
pub enum SessionState {
    Handshaking,
    Open,
    Closed,
}

/// What the session observed: the handshake finishing either way, a
/// decoded message arriving, or the decoder signalling that the peer
/// closed the connection.
#[derive(Clone, Copy, Debug, PartialEq, Eq, Structural)]
pub enum SessionEvent {
    HandshakeAccepted,
    HandshakeFailed,
    MessageArrived,
    ReadClosed,
}

/// What the driver must do after a transition: send the greeting frame,
/// hand the message to the observer, release the connection, or nothing.
#[derive(Clone, Copy, Debug, PartialEq, Eq, Structural)]
pub enum SessionAction {
    SendGreeting,
    DispatchMessage,
    CloseConnection,
    DoNothing,
}

/// The transition table: a successful handshake opens the session and
/// sends the greeting; a failed one closes it without sending frames;
/// an arriving message is dispatched and the session stays open; a
/// closed read ends it; `Closed` is terminal; an event foreign to the
/// current state changes nothing.
pub open spec fn spec_session_step(s: SessionState, ev: SessionEvent) -> (
    SessionState,
    SessionAction,
) {
    match (s, ev) {
        (SessionState::Handshaking, SessionEvent::HandshakeAccepted) => (
            SessionState::Open,
            SessionAction::SendGreeting,
        ),
        (SessionState::Handshaking, SessionEvent::HandshakeFailed) => (
            SessionState::Closed,
            SessionAction::CloseConnection,
        ),
        (SessionState::Open, SessionEvent::MessageArrived) => (
            SessionState::Open,
            SessionAction::DispatchMessage,
        ),
        (SessionState::Open, SessionEvent::ReadClosed) => (
            SessionState::Closed,
            SessionAction::CloseConnection,
        ),
        _ => (s, SessionAction::DoNothing),
    }
}

/// Advances a session by one observed event.
pub fn session_step(s: SessionState, ev: SessionEvent) -> (r: (SessionState, SessionAction))
    ensures
        r == spec_session_step(s, ev),
{
    match (s, ev) {
        (SessionState::Handshaking, SessionEvent::HandshakeAccepted) => (
            SessionState::Open,
            SessionAction::SendGreeting,
        ),
        (SessionState::Handshaking, SessionEvent::HandshakeFailed) => (
            SessionState::Closed,
            SessionAction::CloseConnection,
        ),
        (SessionState::Open, SessionEvent::MessageArrived) => (
            SessionState::Open,
            SessionAction::DispatchMessage,
        ),
        (SessionState::Open, SessionEvent::ReadClosed) => (
            SessionState::Closed,
            SessionAction::CloseConnection,
        ),
        _ => (s, SessionAction::DoNothing),
    }
}

/// `Closed` is terminal: no event leaves it or asks for further work.
pub proof fn lemma_closed_terminal(ev: SessionEvent)
    ensures
        spec_session_step(SessionState::Closed, ev) == (
            SessionState::Closed,
            SessionAction::DoNothing,
        ),
{
}

/// A session only ever moves forward: no transition returns from `Open`
/// to `Handshaking` or out of `Closed`.
pub proof fn lemma_no_reopen(s: SessionState, ev: SessionEvent)
    ensures
        s == SessionState::Open || s == SessionState::Closed ==> spec_session_step(s, ev).0
            != SessionState::Handshaking,
        s == SessionState::Closed ==> spec_session_step(s, ev).0 == SessionState::Closed,
{
}

/// The greeting sent to every client right after a successful handshake.
pub fn greeting() -> (r: String)
    ensures
        r@ == "Welcome to the WebSocket server!"@,
{
    String::from_str("Welcome to the WebSocket server!")
}

} // verus!
