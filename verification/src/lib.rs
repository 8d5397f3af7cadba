//! Dispatch and request/response correlation between a consensus engine and
//! the peer-to-peer transport underneath it.
//!
//! The library decides and keeps the books; it performs no I/O. A driver
//! around it collects the transmissions that the transport has taken, and
//! reports the outcomes of requests.
//!
//! - [`message`]: the message envelope and its kind tag.
//! - [`address`]: participant addresses and peer handles.
//! - [`peers`]: the resolver from address to peer handle.
//! - [`transport`]: the hand-off to the transport.
//! - [`rpc`]: the completion slots of the requests under way.
//! - [`loopback`]: the queue of messages that a participant sends to
//!   itself.
//! - [`sender`]: the sender that consensus calls.
//! - [`error`]: the failures.

pub mod address;
pub mod error;
pub mod loopback;
pub mod message;
pub mod peers;
pub mod rpc;
pub mod sender;
pub mod transport;
