//! The hand-off to the transport.
//!
//! The transport itself lives outside this library. What stands here is the
//! side of it that the senders see: whether it takes hand-offs, and the
//! transmissions that it has taken and that wait for the network's driver.
//! To be handed off is to be taken into that queue; whether a peer ever
//! receives a transmission cannot be seen from here.

use vstd::prelude::*;
use crate::address::NodeId;
use crate::error::NetworkError;
use crate::message::{ConsensusMsg, MsgView, RpcRequest};

verus! {

/// The identifier of a protocol on the transport.
pub type ProtocolId = [u8; 3];

/// The identifier of the consensus protocol, under which every transmission
/// of this layer travels: the bytes of `hsb`.
pub const HSB_PROTOCOL_ID: ProtocolId = [104, 115, 98];

/// One hand-off to the transport.
#[derive(Debug, PartialEq, Eq)]
pub enum Transmission {
    /// A message of the direct channel: sent to one peer, with no reply
    /// expected.
    Direct { protocol: ProtocolId, peer: NodeId, msg: ConsensusMsg },
    /// A request of the RPC channel, to a given peer or to one that the
    /// request manager picks, with the completion slot that its outcome
    /// belongs to.
    Request { protocol: ProtocolId, recipient: Option<NodeId>, request: RpcRequest, slot: u64 },
}

/// What a transmission is to a specification.
pub enum TransmissionView {
    Direct { protocol: ProtocolId, peer: NodeId, msg: MsgView },
    Request { protocol: ProtocolId, recipient: Option<NodeId>, request: MsgView, slot: u64 },
}

impl View for Transmission {
    type V = TransmissionView;

    open spec fn view(&self) -> TransmissionView {
        match *self {
            Transmission::Direct { protocol, peer, msg } => TransmissionView::Direct {
                protocol,
                peer,
                msg: msg@,
            },
            Transmission::Request {
                protocol,
                recipient,
                request,
                slot,
            } => TransmissionView::Request { protocol, recipient, request: request@, slot },
        }
    }
}

/// The views of a sequence of transmissions, in the same order.
pub open spec fn views_of(transmissions: Seq<Transmission>) -> Seq<TransmissionView> {
    Seq::new(transmissions.len(), |i: int| transmissions[i]@)
}

/// A counter one higher, unless it is at its limit already.
pub open spec fn bumped(count: u64) -> u64 {
    if count < u64::MAX {
        (count + 1) as u64
    } else {
        count
    }
}

/// What the transport is to a specification.
pub struct TransportView {
    /// Whether the transport takes hand-offs.
    pub started: bool,
    /// The transmissions taken and not yet collected by the driver, oldest
    /// first.
    pub outbox: Seq<TransmissionView>,
    /// How many hand-offs were refused, as far as the counter reaches.
    pub rejected: u64,
}

impl TransportView {
    /// Whether the transport takes a hand-off in this state.
    pub open spec fn accepts(self) -> bool {
        self.started
    }

    /// What a hand-off reports: success where the transport accepts, the
    /// reason of the refusal where it does not.
    pub open spec fn hand_off_result(self) -> Result<(), NetworkError> {
        if self.accepts() {
            Ok(())
        } else {
            Err(NetworkError::NotStarted)
        }
    }

    /// The state after a hand-off was tried: taken at the end of the queue
    /// where the transport accepts, counted as refused where it does not.
    pub open spec fn after_hand_off(self, transmission: TransmissionView) -> TransportView {
        if self.accepts() {
            TransportView { outbox: self.outbox.push(transmission), ..self }
        } else {
            TransportView { rejected: bumped(self.rejected), ..self }
        }
    }
}

/// The sender's side of the transport.
pub struct Transport {
    started: bool,
    outbox: Vec<Transmission>,
    rejected: u64,
}

impl View for Transport {
    type V = TransportView;

    closed spec fn view(&self) -> TransportView {
        TransportView {
            started: self.started,
            outbox: views_of(self.outbox@),
            rejected: self.rejected,
        }
    }
}

impl Transport {
    /// A transport that is not running yet, with nothing taken or refused.
    pub fn new() -> (transport: Transport)
        ensures
            transport@ == (TransportView { started: false, outbox: Seq::empty(), rejected: 0 }),
    {
        let transport = Transport { started: false, outbox: Vec::new(), rejected: 0 };
        assert(transport@.outbox =~= Seq::empty());
        transport
    }

    /// From now on the transport takes hand-offs.
    pub fn start(&mut self)
        ensures
            final(self)@ == (TransportView { started: true, ..old(self)@ }),
    {
        self.started = true;
    }

    /// From now on the transport refuses hand-offs. What it has taken stays
    /// in the queue.
    pub fn stop(&mut self)
        ensures
            final(self)@ == (TransportView { started: false, ..old(self)@ }),
    {
        self.started = false;
    }

    /// Whether the transport takes hand-offs.
    pub fn is_started(&self) -> (started: bool)
        ensures
            started == self@.started,
    {
        self.started
    }

    /// The number of transmissions that wait for the driver.
    pub fn pending(&self) -> (n: usize)
        ensures
            n == self@.outbox.len(),
    {
        self.outbox.len()
    }

    /// How many hand-offs were refused, as far as the counter reaches.
    pub fn rejected(&self) -> (n: u64)
        ensures
            n == self@.rejected,
    {
        self.rejected
    }

    /// Tries to hand a transmission to the transport. A transport that is
    /// running takes it at the end of its queue. One that is not refuses
    /// it, which is counted and reported.
    pub fn hand_off(&mut self, transmission: Transmission) -> (taken: Result<(), NetworkError>)
        ensures
            final(self)@ == old(self)@.after_hand_off(transmission@),
            taken == old(self)@.hand_off_result(),
    {
        if self.started {
            self.outbox.push(transmission);
            assert(views_of(self.outbox@) =~= views_of(old(self).outbox@).push(transmission@));
            Ok(())
        } else {
            if self.rejected < u64::MAX {
                self.rejected = self.rejected + 1;
            }
            Err(NetworkError::NotStarted)
        }
    }

    /// Hands the oldest waiting transmission to the driver, if there is one.
    pub fn next_transmission(&mut self) -> (next: Option<Transmission>)
        ensures
            match next {
                Some(t) => old(self)@.outbox.len() > 0 && t@ == old(self)@.outbox[0] && final(self)@
                    == (TransportView { outbox: old(self)@.outbox.drop_first(), ..old(self)@ }),
                None => old(self)@.outbox.len() == 0 && final(self)@ == old(self)@,
            },
    {
        if self.outbox.len() == 0 {
            None
        } else {
            let first = self.outbox.remove(0);
            assert(views_of(self.outbox@) =~= views_of(old(self).outbox@).drop_first());
            Some(first)
        }
    }
}

} // verus!
