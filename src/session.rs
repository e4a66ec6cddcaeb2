use vstd::prelude::*;
use crate::member::{Endpoint, Member};

verus! {

/// What the session client received from the central service.
pub enum ServerEvent {
    /// A group snapshot that decoded.
    Snapshot(Vec<Member>),
    /// A text message that did not decode as a snapshot.
    Malformed,
    /// A liveness probe with its payload.
    Ping(Vec<u8>),
    /// Any other message.
    Other,
    /// The connection closed, or failed.
    Closed,
}

/// What the session client does next.
pub enum ClientAction {
    /// Reconcile the peer registry against this membership.
    Reconcile(Vec<Member>),
    /// Answer the probe with this payload.
    Pong(Vec<u8>),
    /// Drop the message and go on reading.
    Skip,
    /// Stop: the session is over.
    Stop,
}

/// The session client's decision on one message: snapshots are reconciled,
/// probes answered with their own payload, undecodable and unknown messages
/// skipped, and only a closed connection ends the session.
pub fn client_step(ev: ServerEvent) -> (r: ClientAction)
    ensures
        match ev {
            ServerEvent::Snapshot(m) => r == ClientAction::Reconcile(m),
            ServerEvent::Ping(p) => r == ClientAction::Pong(p),
            ServerEvent::Malformed => r is Skip,
            ServerEvent::Other => r is Skip,
            ServerEvent::Closed => r is Stop,
        },
{
    match ev {
        ServerEvent::Snapshot(m) => ClientAction::Reconcile(m),
        ServerEvent::Ping(p) => ClientAction::Pong(p),
        ServerEvent::Malformed => ClientAction::Skip,
        ServerEvent::Other => ClientAction::Skip,
        ServerEvent::Closed => ClientAction::Stop,
    }
}

/// The state of one client connection at the central service.
#[derive(Clone, Copy, Debug, PartialEq, Eq)]
pub enum LinkState {
    /// Waiting for the first message.
    Connecting,
    /// The player is online and is sent snapshots.
    Active(i64),
    /// Over.
    Closed,
}

/// What happened on a client connection.
#[derive(Clone, Copy, Debug, PartialEq, Eq)]
pub enum LinkEvent {
    /// The first message, with the identity its token proved (if it did) and
    /// the address it announced (if any).
    Hello { player: Option<i64>, addr: Option<Endpoint> },
    /// A push interval passed; `alive` tells whether the peer still accepted
    /// the liveness probe.
    Tick { alive: bool },
}

/// What the central service does on a client connection.
#[derive(Clone, Copy, Debug, PartialEq, Eq)]
pub enum LinkAction {
    /// Record the player as online.
    Register(Member),
    /// Send the player its group snapshot.
    Push(i64),
    /// Take the player offline and out of its group.
    Cleanup(i64),
    /// Drop the connection; nothing was recorded for it.
    Close,
    /// Nothing to do.
    Wait,
}

/// The central service's transition on one event of a client connection.
pub fn link_step(state: LinkState, ev: LinkEvent) -> (r: (LinkState, LinkAction))
    ensures
        match (state, ev) {
            (LinkState::Connecting, LinkEvent::Hello { player: Some(id), addr: Some(a) }) => r == (
            LinkState::Active(id), LinkAction::Register(Member { id, addr: a })),
            (LinkState::Connecting, _) => r == (LinkState::Closed, LinkAction::Close),
            (LinkState::Active(id), LinkEvent::Tick { alive: true }) => r == (LinkState::Active(id), LinkAction::Push(id)),
            (LinkState::Active(id), LinkEvent::Tick { alive: false }) => r == (LinkState::Closed, LinkAction::Cleanup(id)),
            (LinkState::Active(id), LinkEvent::Hello { .. }) => r == (LinkState::Active(id), LinkAction::Wait),
            (LinkState::Closed, _) => r == (LinkState::Closed, LinkAction::Wait),
        },
{
    match state {
        LinkState::Connecting => match ev {
            LinkEvent::Hello { player: Some(id), addr: Some(a) } => (
                LinkState::Active(id),
                LinkAction::Register(Member { id, addr: a }),
            ),
            _ => (LinkState::Closed, LinkAction::Close),
        },
        LinkState::Active(id) => match ev {
            LinkEvent::Tick { alive } => if alive {
                (LinkState::Active(id), LinkAction::Push(id))
            } else {
                (LinkState::Closed, LinkAction::Cleanup(id))
            },
            LinkEvent::Hello { .. } => (LinkState::Active(id), LinkAction::Wait),
        },
        LinkState::Closed => (LinkState::Closed, LinkAction::Wait),
    }
}

} // verus!
