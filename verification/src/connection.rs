//! Life of one connection: `Connecting`, then `Active` while frames are
//! handled, then `Closed` for good.

use crate::frame::FrameError;
use crate::schema::DecodeError;
use vstd::prelude::*;

verus! {

/// Where a connection stands.
#[derive(Clone, Copy, Debug, PartialEq, Eq, Structural)]
pub enum ConnectionState {
    /// Accepted, not yet in the registry.
    Connecting,
    /// In the registry, handling frames.
    Active,
    /// Out of the registry. Nothing brings a closed connection back.
    Closed,
}

/// What happened on a connection.
#[derive(Clone, Copy, Debug, PartialEq, Eq, Structural)]
pub enum ConnectionEvent {
    /// The session was put in the registry.
    Registered,
    /// A frame was read, decoded and dispatched.
    FrameHandled,
    /// A frame could not be read or written.
    Framing(FrameError),
    /// A payload could not be decoded.
    Decode(DecodeError),
    /// The platform refused something the frame asked for.
    Delivery,
    /// The peer closed the stream.
    StreamClosed,
}

/// What the loop around a connection does next.
#[derive(Clone, Copy, Debug, PartialEq, Eq, Structural)]
pub enum ConnectionAction {
    /// Read the next frame.
    ReadFrame,
    /// Take the session out of the registry and let go of the stream.
    Deregister,
    /// Nothing is left to do.
    Nothing,
}

/// Whether an event ends a connection.
pub open spec fn is_terminal(event: ConnectionEvent) -> bool {
    event is Framing || event is Decode || event is Delivery || event is StreamClosed
}

/// The state after `event`.
pub open spec fn next_state(state: ConnectionState, event: ConnectionEvent) -> ConnectionState {
    match state {
        ConnectionState::Closed => ConnectionState::Closed,
        ConnectionState::Connecting => if is_terminal(event) {
            ConnectionState::Closed
        } else if event is Registered {
            ConnectionState::Active
        } else {
            ConnectionState::Connecting
        },
        ConnectionState::Active => if is_terminal(event) {
            ConnectionState::Closed
        } else {
            ConnectionState::Active
        },
    }
}

/// What is to be done after `event`: a connection that closes is taken out
/// of the registry once, at the event that closes it.
pub open spec fn next_action(state: ConnectionState, event: ConnectionEvent) -> ConnectionAction {
    match (state, next_state(state, event)) {
        (ConnectionState::Closed, _) => ConnectionAction::Nothing,
        (_, ConnectionState::Closed) => ConnectionAction::Deregister,
        (_, ConnectionState::Active) => ConnectionAction::ReadFrame,
        (_, ConnectionState::Connecting) => ConnectionAction::Nothing,
    }
}

/// The state after a run of events.
pub open spec fn state_after(state: ConnectionState, events: Seq<ConnectionEvent>)
    -> ConnectionState
    decreases events.len(),
{
    if events.len() == 0 {
        state
    } else {
        next_state(state_after(state, events.drop_last()), events.last())
    }
}

/// How often a run of events asks for the session to be taken out of the
/// registry.
pub open spec fn deregistrations(state: ConnectionState, events: Seq<ConnectionEvent>) -> nat
    decreases events.len(),
{
    if events.len() == 0 {
        0
    } else {
        deregistrations(state, events.drop_last()) + if next_action(
            state_after(state, events.drop_last()),
            events.last(),
        ) is Deregister {
            1nat
        } else {
            0nat
        }
    }
}

/// Moves a connection on by one event and says what to do next.
pub fn step(state: ConnectionState, event: ConnectionEvent) -> (r: (
    ConnectionState,
    ConnectionAction,
))
    ensures
        r.0 == next_state(state, event),
        r.1 == next_action(state, event),
{
    let terminal = match event {
        ConnectionEvent::Framing(_) => true,
        ConnectionEvent::Decode(_) => true,
        ConnectionEvent::Delivery => true,
        ConnectionEvent::StreamClosed => true,
        _ => false,
    };
    match state {
        ConnectionState::Closed => (ConnectionState::Closed, ConnectionAction::Nothing),
        ConnectionState::Connecting => {
            if terminal {
                (ConnectionState::Closed, ConnectionAction::Deregister)
            } else {
                match event {
                    ConnectionEvent::Registered => (
                        ConnectionState::Active,
                        ConnectionAction::ReadFrame,
                    ),
                    _ => (ConnectionState::Connecting, ConnectionAction::Nothing),
                }
            }
        },
        ConnectionState::Active => {
            if terminal {
                (ConnectionState::Closed, ConnectionAction::Deregister)
            } else {
                (ConnectionState::Active, ConnectionAction::ReadFrame)
            }
        },
    }
}

/// A closed connection stays closed and asks for nothing more.
pub proof fn lemma_closed_is_terminal(events: Seq<ConnectionEvent>)
    ensures
        state_after(ConnectionState::Closed, events) == ConnectionState::Closed,
        deregistrations(ConnectionState::Closed, events) == 0,
    decreases events.len(),
{
    if events.len() > 0 {
        lemma_closed_is_terminal(events.drop_last());
    }
}

/// Whatever happens on a connection, its session is taken out of the
/// registry at most once, and exactly once if the connection ends up closed.
pub proof fn lemma_deregistered_once(state: ConnectionState, events: Seq<ConnectionEvent>)
    requires
        state != ConnectionState::Closed,
    ensures
        deregistrations(state, events) <= 1,
        deregistrations(state, events) == 1 <==> state_after(state, events)
            == ConnectionState::Closed,
    decreases events.len(),
{
    if events.len() > 0 {
        lemma_deregistered_once(state, events.drop_last());
    }
}

/// Any failure and the end of the stream close an open connection and ask
/// for its session to be taken out of the registry.
pub proof fn lemma_errors_close(state: ConnectionState, event: ConnectionEvent)
    requires
        state != ConnectionState::Closed,
        is_terminal(event),
    ensures
        next_state(state, event) == ConnectionState::Closed,
        next_action(state, event) == ConnectionAction::Deregister,
{
}

} // verus!
