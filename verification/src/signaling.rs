//! The connection-state transitions on which the two peers act.

use vstd::prelude::*;

verus! {

/// State of the peer connection as a whole.
#[derive(Clone, Copy, Debug, PartialEq, Eq, Structural)]
pub enum PeerConnectionState {
    Unspecified,
    New,
    Connecting,
    Connected,
    Disconnected,
    Failed,
    Closed,
}

/// State of the ICE transport of a connection.
#[derive(Clone, Copy, Debug, PartialEq, Eq, Structural)]
pub enum IceConnectionState {
    Unspecified,
    New,
    Checking,
    Connected,
    Completed,
    Disconnected,
    Failed,
    Closed,
}

/// State of the gathering of local ICE candidates.
#[derive(Clone, Copy, Debug, PartialEq, Eq, Structural)]
pub enum IceGathererState {
    Unspecified,
    New,
    Gathering,
    Complete,
    Closed,
}

impl PeerConnectionState {
    /// The sender starts streaming once the connection reports `Connected`.
    pub fn starts_streaming(&self) -> (r: bool)
        ensures
            r == (*self is Connected),
    {
        match self {
            PeerConnectionState::Connected => true,
            _ => false,
        }
    }
}

impl IceConnectionState {
    /// The receiver stops reading once the ICE transport is disconnected,
    /// has failed or is closed.
    pub fn ends_reception(&self) -> (r: bool)
        ensures
            r == (*self is Disconnected || *self is Failed || *self is Closed),
    {
        match self {
            IceConnectionState::Disconnected | IceConnectionState::Failed
            | IceConnectionState::Closed => true,
            _ => false,
        }
    }
}

impl IceGathererState {
    /// The receiver waits for candidate gathering to reach `Complete`.
    pub fn gathering_done(&self) -> (r: bool)
        ensures
            r == (*self is Complete),
    {
        match self {
            IceGathererState::Complete => true,
            _ => false,
        }
    }
}

} // verus!
