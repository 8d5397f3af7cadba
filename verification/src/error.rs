//! The failures that this layer reports.

use vstd::prelude::*;

verus! {

/// A hand-off that the transport did not accept.
#[derive(Clone, Copy, Debug, PartialEq, Eq, Structural)]
pub enum NetworkError {
    /// The transport is not running, so it takes no hand-off.
    NotStarted,
}

/// The failures of a request on the RPC channel.
#[derive(Clone, Copy, Debug, PartialEq, Eq, Structural)]
pub enum Error {
    /// The request could not be handed to the transport, so it was never
    /// issued.
    Network(NetworkError),
    /// No response came within the time that the request manager allows.
    Timeout,
    /// A response came and could not be decoded.
    Decode,
    /// The request manager reports that the request could not be delivered.
    Delivery,
    /// The completion slot was given up before it was fulfilled.
    Canceled,
}

/// The failure of a delivery to the local participant.
#[derive(Clone, Copy, Debug, PartialEq, Eq, Structural)]
pub enum LoopbackError {
    /// The queue has been torn down and takes no message.
    Closed,
}

} // verus!
