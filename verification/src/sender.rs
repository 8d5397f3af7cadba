//! The interface from consensus to the networking layer.
//!
//! The sender decides; it performs no I/O. A send resolves the recipient
//! and hands a transmission to the transport's queue, from which the
//! network's driver collects it. A request opens a completion slot before
//! it leaves, and the request manager reports the outcome to that slot. A
//! message of a participant to itself goes to the loopback queue and never
//! near the transport.

use vstd::prelude::*;
use crate::address::{AccountAddress, NodeId};
use crate::error::{Error, LoopbackError, NetworkError};
use crate::loopback::{LoopbackQueue, LoopbackView};
use crate::message::{response_kind, ConsensusMsg, MsgView, RpcRequest};
use crate::peers::{resolution, PeerTable};
use crate::rpc::{CorrelatorView, PendingResponse, RpcCorrelator};
use crate::transport::{
    bumped,
    Transmission,
    TransmissionView,
    Transport,
    TransportView,
    HSB_PROTOCOL_ID,
};

verus! {

/// The address of a participant, as the recipient of a message.
pub type PeerId = AccountAddress;

/// The transmission that carries a message to a peer on the direct channel.
pub open spec fn direct(peer: NodeId, msg: MsgView) -> TransmissionView {
    TransmissionView::Direct { protocol: HSB_PROTOCOL_ID, peer, msg }
}

/// The transmission that carries a request on the RPC channel, with the
/// number of its completion slot.
pub open spec fn rpc_request(
    recipient: Option<NodeId>,
    request: MsgView,
    slot: u64,
) -> TransmissionView {
    TransmissionView::Request { protocol: HSB_PROTOCOL_ID, recipient, request, slot }
}

/// The handles of the recipients that resolve, in the recipients' order. A
/// recipient that occurs twice is counted twice.
pub open spec fn resolved(
    peers: Map<AccountAddress, NodeId>,
    recipients: Seq<AccountAddress>,
) -> Seq<NodeId>
    decreases recipients.len(),
{
    if recipients.len() == 0 {
        Seq::empty()
    } else {
        let before = resolved(peers, recipients.drop_last());
        match resolution(peers, recipients.last()) {
            Some(peer) => before.push(peer),
            None => before,
        }
    }
}

/// The direct transmissions of one message to a sequence of peers.
pub open spec fn directs(peers: Seq<NodeId>, msg: MsgView) -> Seq<TransmissionView> {
    Seq::new(peers.len(), |i: int| direct(peers[i], msg))
}

/// A counter higher by a number, as far as the counter reaches.
pub open spec fn bumped_by(count: u64, n: nat) -> u64 {
    if count + n <= u64::MAX {
        (count + n) as u64
    } else {
        u64::MAX
    }
}

/// What the sender is to a specification: the views of its four parts.
pub struct SenderView {
    pub network: TransportView,
    pub peers: Map<AccountAddress, NodeId>,
    pub rpc: CorrelatorView,
    pub loopback: LoopbackView,
}

impl SenderView {
    /// The state after a hand-off to a peer was tried.
    pub open spec fn after_hand_off(self, peer: NodeId, msg: MsgView) -> SenderView {
        SenderView { network: self.network.after_hand_off(direct(peer, msg)), ..self }
    }

    /// The state after a message was sent to one recipient: a hand-off was
    /// tried if the recipient resolves, and nothing happened if not.
    pub open spec fn after_send_to(self, recipient: AccountAddress, msg: MsgView) -> SenderView {
        match resolution(self.peers, recipient) {
            Some(peer) => self.after_hand_off(peer, msg),
            None => self,
        }
    }

    /// What a send to one recipient reports: a failure if the recipient
    /// resolves and the transport refuses the hand-off, success otherwise.
    pub open spec fn send_to_result(self, recipient: AccountAddress) -> Result<(), NetworkError> {
        match resolution(self.peers, recipient) {
            Some(_) => self.network.hand_off_result(),
            None => Ok(()),
        }
    }

    /// The state after a message was sent to each of the recipients in
    /// turn, whatever became of each send.
    pub open spec fn after_send_to_many(
        self,
        recipients: Seq<AccountAddress>,
        msg: MsgView,
    ) -> SenderView
        decreases recipients.len(),
    {
        if recipients.len() == 0 {
            self
        } else {
            self.after_send_to_many(recipients.drop_last(), msg).after_send_to(
                recipients.last(),
                msg,
            )
        }
    }

    /// The state after a request was sent: where the transport accepts, a
    /// slot is open under the next number and the request waits in the
    /// transport's queue with that number. Where it refuses, no slot was
    /// opened.
    pub open spec fn after_send_rpc(
        self,
        recipient: Option<NodeId>,
        request: MsgView,
    ) -> SenderView {
        let transmission = rpc_request(recipient, request, self.rpc.issued);
        if self.network.accepts() {
            match response_kind(request.kind) {
                Some(expects) => SenderView {
                    network: self.network.after_hand_off(transmission),
                    rpc: self.rpc.after_open(expects),
                    ..self
                },
                None => self,
            }
        } else {
            SenderView { network: self.network.after_hand_off(transmission), ..self }
        }
    }

    /// The state after a participant sent a message to itself.
    pub open spec fn after_send_self(self, author: AccountAddress, msg: MsgView) -> SenderView {
        SenderView { loopback: self.loopback.after_push(author, msg), ..self }
    }
}

/// The interface from consensus to the networking layer.
pub struct ConsensusNetworkSender {
    /// The hand-off to the transport.
    pub network: Transport,
    /// The peers that are reachable now.
    pub peers: PeerTable,
    /// The completion slots of the requests under way.
    pub rpc: RpcCorrelator,
    /// The queue of the messages that participants send to themselves.
    pub loopback: LoopbackQueue,
}

impl View for ConsensusNetworkSender {
    type V = SenderView;

    open spec fn view(&self) -> SenderView {
        SenderView {
            network: self.network@,
            peers: self.peers@,
            rpc: self.rpc@,
            loopback: self.loopback@,
        }
    }
}

impl ConsensusNetworkSender {
    /// A sender with a transport that is not running yet, no peers, no
    /// request under way and an open, empty loopback queue.
    pub fn new() -> (sender: ConsensusNetworkSender)
        ensures
            sender@ == (SenderView {
                network: TransportView { started: false, outbox: Seq::empty(), rejected: 0 },
                peers: Map::empty(),
                rpc: CorrelatorView { issued: 0, slots: Map::empty() },
                loopback: LoopbackView { closed: false, queued: Seq::empty() },
            }),
    {
        ConsensusNetworkSender {
            network: Transport::new(),
            peers: PeerTable::new(),
            rpc: RpcCorrelator::new(),
            loopback: LoopbackQueue::new(),
        }
    }

    /// Sends a message to one recipient on the direct channel, under the
    /// consensus protocol's identifier.
    ///
    /// The recipient is looked up now. One without a peer is skipped: that
    /// is success, and nothing is handed off. For one with a peer the
    /// message is handed to the transport; the send fails if and only if
    /// the transport refuses it.
    pub fn send_to(&mut self, recipient: PeerId, msg: &ConsensusMsg) -> (sent: Result<
        (),
        NetworkError,
    >)
        ensures
            final(self)@ == old(self)@.after_send_to(recipient, msg@),
            sent == old(self)@.send_to_result(recipient),
            resolution(old(self)@.peers, recipient) is None ==> sent is Ok && final(self)@ == old(
                self,
            )@,
    {
        match self.peers.resolve(&recipient) {
            Some(peer_id) => self.send_message_with_peer_id(&peer_id, msg),
            None => Ok(()),
        }
    }

    /// Sends a message to each of the recipients on the direct channel.
    ///
    /// Every recipient is handled as a send to it alone would: one that
    /// does not resolve is skipped, and a hand-off that the transport
    /// refuses is counted there and holds back nothing that follows. The
    /// call itself succeeds once every recipient had its turn.
    pub fn send_to_many(&mut self, recipients: Vec<PeerId>, msg: &ConsensusMsg) -> (sent: Result<
        (),
        NetworkError,
    >)
        ensures
            final(self)@ == old(self)@.after_send_to_many(recipients@, msg@),
            sent is Ok,
    {
        let ghost start = self@;
        let mut i: usize = 0;
        while i < recipients.len()
            invariant
                i <= recipients@.len(),
                self@ == start.after_send_to_many(recipients@.subrange(0, i as int), msg@),
            decreases recipients@.len() - i,
        {
            proof {
                let next = recipients@.subrange(0, i + 1);
                assert(next.drop_last() =~= recipients@.subrange(0, i as int));
                assert(next.last() == recipients@[i as int]);
            }
            let _ = self.send_to(recipients[i], msg);
            i += 1;
        }
        assert(recipients@.subrange(0, i as int) =~= recipients@);
        Ok(())
    }

    /// Sends a request on the RPC channel, under the consensus protocol's
    /// identifier, to a given peer or to one that the request manager
    /// picks.
    ///
    /// The request leaves with the number of a new completion slot, and
    /// the caller gets the handle of that slot, to ask for the outcome. If
    /// the transport refuses the hand-off, the send fails at once and no
    /// slot is opened: the request was never issued.
    pub fn send_rpc(&mut self, recipient: Option<NodeId>, request: RpcRequest) -> (issued: Result<
        PendingResponse,
        Error,
    >)
        requires
            old(self)@.rpc.issued < u64::MAX,
        ensures
            final(self)@ == old(self)@.after_send_rpc(recipient, request@),
            match issued {
                Ok(handle) => {
                    &&& old(self)@.network.accepts()
                    &&& handle.slot_id() == old(self)@.rpc.issued
                    &&& !old(self)@.rpc.slots.contains_key(handle.slot_id())
                    &&& final(self)@.rpc.is_pending(handle.slot_id())
                },
                Err(e) => {
                    &&& !old(self)@.network.accepts()
                    &&& e == Error::Network(NetworkError::NotStarted)
                    &&& final(self)@.rpc == old(self)@.rpc
                },
            },
    {
        let slot = self.rpc.issued();
        let expects = request.expects();
        let transmission = Transmission::Request {
            protocol: HSB_PROTOCOL_ID,
            recipient,
            request,
            slot,
        };
        match self.network.hand_off(transmission) {
            Ok(()) => Ok(self.rpc.open(expects)),
            Err(e) => Err(Error::Network(e)),
        }
    }

    /// Sends a message of a participant to itself: it is queued for the
    /// local consumer under the key of the author's address and the
    /// message's kind. Nothing is resolved and nothing is handed to the
    /// transport. The send fails if and only if the queue has been torn
    /// down.
    pub fn send_self_msg(
        &mut self,
        self_author: AccountAddress,
        msg: ConsensusMsg,
    ) -> (sent: Result<(), LoopbackError>)
        ensures
            final(self)@ == old(self)@.after_send_self(self_author, msg@),
            sent == old(self)@.loopback.push_result(),
    {
        self.loopback.push(self_author, msg)
    }

    /// Hands a message for one peer to the transport. A refusal is counted
    /// by the transport and reported.
    fn send_message_with_peer_id(&mut self, peer_id: &NodeId, msg: &ConsensusMsg) -> (sent: Result<
        (),
        NetworkError,
    >)
        ensures
            final(self)@ == old(self)@.after_hand_off(*peer_id, msg@),
            sent == old(self)@.network.hand_off_result(),
    {
        self.network.hand_off(
            Transmission::Direct { protocol: HSB_PROTOCOL_ID, peer: *peer_id, msg: msg.clone() },
        )
    }
}

/// A send to a recipient without a peer succeeds, and leaves the
/// transport, and everything else, as it was.
pub proof fn lemma_unresolved_send_is_silent(
    state: SenderView,
    recipient: AccountAddress,
    msg: MsgView,
)
    requires
        resolution(state.peers, recipient) is None,
    ensures
        state.send_to_result(recipient) == Ok::<(), NetworkError>(()),
        state.after_send_to(recipient, msg) == state,
{
}

/// In a send to many, every recipient has its turn: the state after the
/// first `k + 1` recipients is the state after the first `k`, whatever
/// became of them, followed by a send to recipient `k` alone.
pub proof fn lemma_each_recipient_has_its_turn(
    state: SenderView,
    recipients: Seq<AccountAddress>,
    msg: MsgView,
    k: int,
)
    requires
        0 <= k < recipients.len(),
    ensures
        state.after_send_to_many(recipients.take(k + 1), msg) == state.after_send_to_many(
            recipients.take(k),
            msg,
        ).after_send_to(recipients[k], msg),
{
    assert(recipients.take(k + 1).drop_last() =~= recipients.take(k));
}

/// A send to many is a send to a first part of the recipients followed by
/// a send to the rest: what was refused in the first part changes nothing
/// for the rest.
pub proof fn lemma_send_to_many_continues(
    state: SenderView,
    first: Seq<AccountAddress>,
    rest: Seq<AccountAddress>,
    msg: MsgView,
)
    ensures
        state.after_send_to_many(first + rest, msg) == state.after_send_to_many(
            first,
            msg,
        ).after_send_to_many(rest, msg),
    decreases rest.len(),
{
    if rest.len() == 0 {
        assert(first + rest =~= first);
    } else {
        lemma_send_to_many_continues(state, first, rest.drop_last(), msg);
        assert((first + rest).drop_last() =~= first + rest.drop_last());
        assert((first + rest).last() == rest.last());
    }
}

/// Counting refusals one by one is counting them at once.
proof fn lemma_bumped_by_step(count: u64, n: nat)
    ensures
        bumped(bumped_by(count, n)) == bumped_by(count, n + 1),
        bumped_by(count, 0) == count,
{
}

/// What a send to many comes to. The table of peers, the completion slots
/// and the loopback queue stay as they are. A transport that accepts has
/// taken one transmission for every recipient that resolves, in the
/// recipients' order. One that refuses has counted one refusal for every
/// recipient that resolves. Recipients that do not resolve leave no trace.
pub proof fn lemma_send_to_many_reaches_all(
    state: SenderView,
    recipients: Seq<AccountAddress>,
    msg: MsgView,
)
    ensures
        state.after_send_to_many(recipients, msg) == (SenderView {
            network: if state.network.accepts() {
                TransportView {
                    outbox: state.network.outbox + directs(
                        resolved(state.peers, recipients),
                        msg,
                    ),
                    ..state.network
                }
            } else {
                TransportView {
                    rejected: bumped_by(
                        state.network.rejected,
                        resolved(state.peers, recipients).len(),
                    ),
                    ..state.network
                }
            },
            ..state
        }),
    decreases recipients.len(),
{
    if recipients.len() == 0 {
        assert(state.network.outbox + directs(Seq::<NodeId>::empty(), msg)
            =~= state.network.outbox);
    } else {
        let front = recipients.drop_last();
        lemma_send_to_many_reaches_all(state, front, msg);
        let handles = resolved(state.peers, front);
        let middle = state.after_send_to_many(front, msg);
        match resolution(state.peers, recipients.last()) {
            Some(peer) => {
                lemma_bumped_by_step(state.network.rejected, handles.len());
                assert(state.network.outbox + directs(handles.push(peer), msg) =~= (
                state.network.outbox + directs(handles, msg)).push(direct(peer, msg)));
            },
            None => {},
        }
    }
}

} // verus!
