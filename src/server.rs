use vstd::prelude::*;

use crate::response::{build_response, spec_build_response};

verus! {

/// The listener's state: open and serving, or stopped for good.
#[derive(Clone, Copy, Debug, PartialEq, Eq, Structural)]
pub enum ServerState {
    Bound,
    Stopped,
}

/// What the socket loop observed since the last step.
#[derive(Clone, Debug)]
pub enum ServerEvent {
    /// A datagram arrived with this payload.
    Datagram(Vec<u8>),
    /// A receive or send failed; `socket_usable` tells whether the socket
    /// can still be used.
    SocketError { socket_usable: bool },
    /// Someone asked the listener to stop.
    StopRequested,
}

/// What the socket loop must do next.
#[derive(Clone, Debug)]
pub enum ServerAction {
    /// Send these bytes back to the sender of the datagram.
    Reply(Vec<u8>),
    /// Do nothing for this event and wait for the next datagram.
    Ignore,
    /// Leave the loop.
    Halt,
}

/// One decision of the listener: the next state and the action for `event`.
/// A stopped listener stays stopped. A datagram that decodes is answered; one
/// that does not is dropped without reply. A socket error stops the listener
/// only when the socket can no longer be used; a stop request always does.
pub fn server_step(state: ServerState, event: ServerEvent) -> (r: (ServerState, ServerAction))
    ensures
        state == ServerState::Stopped ==> r.0 == ServerState::Stopped && r.1 is Halt,
        state == ServerState::Bound ==> match event {
            ServerEvent::Datagram(p) => r.0 == ServerState::Bound && match spec_build_response(p@) {
                Ok(bytes) => r.1 matches ServerAction::Reply(v) && v@ == bytes,
                Err(_) => r.1 is Ignore,
            },
            ServerEvent::SocketError { socket_usable } => if socket_usable {
                r.0 == ServerState::Bound && r.1 is Ignore
            } else {
                r.0 == ServerState::Stopped && r.1 is Halt
            },
            ServerEvent::StopRequested => r.0 == ServerState::Stopped && r.1 is Halt,
        },
{
    match state {
        ServerState::Stopped => (ServerState::Stopped, ServerAction::Halt),
        ServerState::Bound => match event {
            ServerEvent::Datagram(payload) => match build_response(payload.as_slice()) {
                Ok(bytes) => (ServerState::Bound, ServerAction::Reply(bytes)),
                Err(_) => (ServerState::Bound, ServerAction::Ignore),
            },
            ServerEvent::SocketError { socket_usable } => {
                if socket_usable {
                    (ServerState::Bound, ServerAction::Ignore)
                } else {
                    (ServerState::Stopped, ServerAction::Halt)
                }
            },
            ServerEvent::StopRequested => (ServerState::Stopped, ServerAction::Halt),
        },
    }
}

} // verus!
