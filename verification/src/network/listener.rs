//! The decisions of the listener.
//!
//! The listener binds once and then accepts connections until shutdown is
//! observed. The caller owns the socket: it binds, waits for events, hands
//! them in and does what the answer says.

use vstd::prelude::*;

verus! {

/// The port that the server listens on.
pub const LISTEN_PORT: u16 = 30000;

/// The address that the server listens on: the loopback interface.
pub const LISTEN_ADDRESS: [u8; 4] = [127, 0, 0, 1];

/// What happened at the listening socket.
#[derive(Clone, Copy, Debug, PartialEq, Eq, Structural)]
pub enum ListenerEvent {
    /// The address could not be bound.
    BindFailed,
    /// Shutdown was observed.
    Shutdown,
    /// A connection was accepted. `registered` says whether the registry
    /// took it in.
    Accepted { registered: bool },
    /// Accepting a connection failed.
    AcceptFailed,
}

/// What the listener does about an event.
#[derive(Clone, Copy, Debug, PartialEq, Eq, Structural)]
pub enum ListenerAction {
    /// Ask the whole server to shut down, and stop: there is no other
    /// address to fall back to.
    RequestShutdown,
    /// Stop accepting.
    Stop,
    /// Hand the connection to a handler of its own, with its own shutdown
    /// handle, and go on accepting.
    SpawnHandler,
    /// Drop the connection and go on accepting.
    DropConnection,
    /// Go on accepting.
    KeepListening,
}

/// What the listener does about `event`.
pub open spec fn listener_action(event: ListenerEvent) -> ListenerAction {
    match event {
        ListenerEvent::BindFailed => ListenerAction::RequestShutdown,
        ListenerEvent::Shutdown => ListenerAction::Stop,
        ListenerEvent::Accepted { registered } => if registered {
            ListenerAction::SpawnHandler
        } else {
            ListenerAction::DropConnection
        },
        ListenerEvent::AcceptFailed => ListenerAction::KeepListening,
    }
}

/// Whether the listener goes on accepting after `action`.
pub open spec fn keeps_listening(action: ListenerAction) -> bool {
    match action {
        ListenerAction::RequestShutdown => false,
        ListenerAction::Stop => false,
        ListenerAction::SpawnHandler => true,
        ListenerAction::DropConnection => true,
        ListenerAction::KeepListening => true,
    }
}

/// Decides what to do about an event at the listening socket.
pub fn on_listener_event(event: ListenerEvent) -> (action: ListenerAction)
    ensures
        action == listener_action(event),
{
    match event {
        ListenerEvent::BindFailed => ListenerAction::RequestShutdown,
        ListenerEvent::Shutdown => ListenerAction::Stop,
        ListenerEvent::Accepted { registered } => {
            if registered {
                ListenerAction::SpawnHandler
            } else {
                ListenerAction::DropConnection
            }
        },
        ListenerEvent::AcceptFailed => ListenerAction::KeepListening,
    }
}

impl ListenerAction {
    /// Whether the listener goes on accepting after this action.
    pub fn keeps_listening(&self) -> (goes_on: bool)
        ensures
            goes_on == keeps_listening(*self),
    {
        match self {
            ListenerAction::RequestShutdown => false,
            ListenerAction::Stop => false,
            ListenerAction::SpawnHandler => true,
            ListenerAction::DropConnection => true,
            ListenerAction::KeepListening => true,
        }
    }
}

/// The listener stops for good exactly when the address cannot be bound or
/// shutdown is observed, and only a failed bind makes it ask for shutdown.
pub proof fn lemma_listener_stops(event: ListenerEvent)
    ensures
        !keeps_listening(listener_action(event)) <==> (event == ListenerEvent::BindFailed || event
            == ListenerEvent::Shutdown),
        listener_action(event) == ListenerAction::RequestShutdown <==> event
            == ListenerEvent::BindFailed,
{
}

} // verus!
