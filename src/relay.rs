use vstd::prelude::*;

verus! {

/// A frame read from a connection.
pub enum Frame {
    /// A UTF-8 text payload.
    Text(String),
    /// The peer's close signal.
    Close,
    /// Binary, ping or pong frames: accepted by the transport, never relayed.
    Other,
}

/// What the inbound side of a connection does with what it read.
pub enum InboundAction {
    /// Hand the payload, unmodified, to the registry's broadcast.
    Broadcast(String),
    /// Stop reading; the connection is torn down.
    Stop,
    /// Read the next frame.
    Ignore,
}

/// Decides what the inbound side does with the next read. `None` stands for
/// the end of the stream or a read error.
pub fn inbound_action(read: Option<Frame>) -> (action: InboundAction)
    ensures
        match read {
            Some(Frame::Text(t)) => action matches InboundAction::Broadcast(p) && p@ == t@,
            Some(Frame::Close) | None => action matches InboundAction::Stop,
            Some(Frame::Other) => action matches InboundAction::Ignore,
        },
{
    match read {
        Some(Frame::Text(t)) => InboundAction::Broadcast(t),
        Some(Frame::Close) => InboundAction::Stop,
        Some(Frame::Other) => InboundAction::Ignore,
        None => InboundAction::Stop,
    }
}

/// The life of one connection.
#[derive(PartialEq, Eq, Structural, Clone, Copy, Debug)]
pub enum ConnectionState {
    /// The upgrade handshake is under way.
    Connecting,
    /// Registered: reads are relayed and broadcasts are delivered.
    Open,
    /// One side has stopped; the handle is gone from the registry while the
    /// other side may still be draining.
    Closing,
    /// Terminal: resources released, identifier never reused.
    Closed,
}

/// What happens to a connection.
#[derive(PartialEq, Eq, Structural, Clone, Copy, Debug)]
pub enum ConnectionEvent {
    /// The handshake completed and admission was granted.
    Admitted,
    /// Admission was refused.
    Rejected,
    /// The inbound or the outbound side stopped.
    SideStopped,
    /// Both sides have stopped and the connection's resources are released.
    Released,
}

/// The lifecycle rule: `Connecting → Open → Closing → Closed`, with a refused
/// admission going straight to `Closed`. Any other event leaves the state as
/// it is.
pub open spec fn transition(s: ConnectionState, e: ConnectionEvent) -> ConnectionState {
    match (s, e) {
        (ConnectionState::Connecting, ConnectionEvent::Admitted) => ConnectionState::Open,
        (ConnectionState::Connecting, ConnectionEvent::Rejected) => ConnectionState::Closed,
        (ConnectionState::Open, ConnectionEvent::SideStopped) => ConnectionState::Closing,
        (ConnectionState::Closing, ConnectionEvent::Released) => ConnectionState::Closed,
        _ => s,
    }
}

/// Applies `event` to `state`.
pub fn next_state(state: ConnectionState, event: ConnectionEvent) -> (r: ConnectionState)
    ensures
        r == transition(state, event),
{
    match (state, event) {
        (ConnectionState::Connecting, ConnectionEvent::Admitted) => ConnectionState::Open,
        (ConnectionState::Connecting, ConnectionEvent::Rejected) => ConnectionState::Closed,
        (ConnectionState::Open, ConnectionEvent::SideStopped) => ConnectionState::Closing,
        (ConnectionState::Closing, ConnectionEvent::Released) => ConnectionState::Closed,
        _ => state,
    }
}

/// Whether a connection in `state` reads frames and is a broadcast target.
pub fn is_open(state: ConnectionState) -> (b: bool)
    ensures
        b == (state == ConnectionState::Open),
{
    state == ConnectionState::Open
}

/// A closed connection stays closed, whatever happens next.
pub proof fn lemma_closed_is_terminal(e: ConnectionEvent)
    ensures
        transition(ConnectionState::Closed, e) == ConnectionState::Closed,
{
}

} // verus!
