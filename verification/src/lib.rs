//! A rollback-netcode session core.
//!
//! The crate manages a peer-to-peer simulation that runs ahead of the
//! network: each tick it gathers the local input, predicts the remote
//! inputs that have not arrived yet, and advances a deterministic
//! simulation. When a remote input is later confirmed and differs from
//! the prediction, the session rolls back to the last fully confirmed
//! tick and replays forward with the corrected inputs.
//!
//! Modules:
//! - [`registry`]: tracks peers, their connection state and their handles.
//! - [`sim`]: the deterministic simulation step and its replay function.
//! - [`session`]: the input aggregator and the rollback scheduler.
//! - [`transport`]: the byte encoding of input packets.

use vstd::prelude::*;

pub mod registry;
pub mod session;
pub mod sim;
pub mod transport;

verus! {

/// Errors surfaced by the session core.
///
/// `RollbackOverrun` (running past the prediction window) is not here:
/// it is absorbed by stalling and never reaches the caller as an error.
#[derive(Clone, Copy, Debug, PartialEq, Eq, Structural)]
pub enum SessionError {
    /// A peer was added beyond the configured player count.
    CapacityExceeded,
    /// A local input was submitted for a tick that is not the next
    /// unrecorded local tick.
    StaleInput,
    /// A received packet was malformed and has been discarded.
    DecodeError,
}

/// How an input value for a (handle, tick) pair was obtained.
#[derive(Clone, Copy, Debug, PartialEq, Eq, Structural)]
pub enum ConfirmationStatus {
    /// The true input, received from its owner; immutable once recorded.
    Confirmed,
    /// A guess (the last confirmed value) that may later be corrected.
    Predicted,
    /// The handle is disconnected; the input is the fixed default zero.
    Disconnected,
}

/// Connection state of one peer slot.
#[derive(Clone, Copy, Debug, PartialEq, Eq, Structural)]
pub enum PeerState {
    Connecting,
    Connected,
    Disconnected,
}

/// State of the rollback scheduler.
#[derive(Clone, Copy, Debug, PartialEq, Eq, Structural)]
pub enum Phase {
    /// Waiting for the configured number of peers.
    Idle,
    /// Steady loop: simulate, predict, reconcile.
    Running,
    /// The prediction window is full; waiting for confirmations.
    Stalled,
    /// Shut down, or all remote peers were lost.
    Terminated,
}

/// Observable notifications, consumed from the session's event log.
#[derive(Clone, Copy, Debug, PartialEq, Eq, Structural)]
pub enum SessionEvent {
    /// The peer holding this handle finished connecting.
    PeerConnected { handle: usize },
    /// The peer holding this handle was lost.
    PeerDisconnected { handle: usize },
    /// Every remote peer is gone; the session is over.
    SessionLost,
}

} // verus!
