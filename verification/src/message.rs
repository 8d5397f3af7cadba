//! The consensus message envelope, its kind tag, and the request and
//! response envelopes of the RPC channel.
//!
//! A payload travels through this layer as the bytes of its wire encoding:
//! nothing here reads it.

use vstd::prelude::*;

verus! {

/// The encoded payload that an envelope carries.
pub type Payload = Vec<u8>;

/// A copy of a payload, byte for byte.
pub fn copy_payload(payload: &Payload) -> (copy: Payload)
    ensures
        copy@ == payload@,
{
    let mut copy: Vec<u8> = Vec::new();
    let mut i: usize = 0;
    while i < payload.len()
        invariant
            i <= payload.len(),
            copy@ == payload@.subrange(0, i as int),
        decreases payload.len() - i,
    {
        copy.push(payload[i]);
        i += 1;
        assert(copy@ == payload@.subrange(0, i as int));
    }
    assert(payload@.subrange(0, payload.len() as int) == payload@);
    copy
}

/// The kind of a consensus message: one tag per envelope variant. The tag
/// depends on the variant alone, never on the payload.
#[derive(Clone, Copy, Debug, PartialEq, Eq, Structural)]
pub enum MsgKind {
    BlockRetrievalRequest,
    BlockRetrievalResponse,
    EpochRetrievalRequest,
    ProposalMsg,
    SyncInfo,
    EpochChangeProof,
    VoteMsg,
}

/// What a message is to a specification: its kind and its payload bytes.
pub struct MsgView {
    pub kind: MsgKind,
    pub payload: Seq<u8>,
}

/// Network type for consensus: a closed set of message variants, each with
/// the payload of its kind.
#[derive(Debug, PartialEq, Eq)]
pub enum ConsensusMsg {
    /// RPC to get a chain of blocks of a given length starting from a given
    /// block id.
    BlockRetrievalRequest(Payload),
    /// Carries the returned blocks and the retrieval status.
    BlockRetrievalResponse(Payload),
    /// Request for a proof of the epoch changes between two epochs.
    EpochRetrievalRequest(Payload),
    /// A proposal, with what the proposer election needs to judge it.
    ProposalMsg(Payload),
    /// Basic synchronization metadata.
    SyncInfo(Payload),
    /// Ledger infos with contiguous increasing epoch numbers, which prove a
    /// sequence of epoch changes.
    EpochChangeProof(Payload),
    /// What a voter sends in response to a proposal.
    VoteMsg(Payload),
}

impl View for ConsensusMsg {
    type V = MsgView;

    open spec fn view(&self) -> MsgView {
        match *self {
            ConsensusMsg::BlockRetrievalRequest(p) => MsgView {
                kind: MsgKind::BlockRetrievalRequest,
                payload: p@,
            },
            ConsensusMsg::BlockRetrievalResponse(p) => MsgView {
                kind: MsgKind::BlockRetrievalResponse,
                payload: p@,
            },
            ConsensusMsg::EpochRetrievalRequest(p) => MsgView {
                kind: MsgKind::EpochRetrievalRequest,
                payload: p@,
            },
            ConsensusMsg::ProposalMsg(p) => MsgView { kind: MsgKind::ProposalMsg, payload: p@ },
            ConsensusMsg::SyncInfo(p) => MsgView { kind: MsgKind::SyncInfo, payload: p@ },
            ConsensusMsg::EpochChangeProof(p) => MsgView {
                kind: MsgKind::EpochChangeProof,
                payload: p@,
            },
            ConsensusMsg::VoteMsg(p) => MsgView { kind: MsgKind::VoteMsg, payload: p@ },
        }
    }
}

impl ConsensusMsg {
    /// The envelope of a given kind around a payload.
    pub fn new(kind: MsgKind, payload: Payload) -> (msg: ConsensusMsg)
        ensures
            msg@ == (MsgView { kind, payload: payload@ }),
    {
        match kind {
            MsgKind::BlockRetrievalRequest => ConsensusMsg::BlockRetrievalRequest(payload),
            MsgKind::BlockRetrievalResponse => ConsensusMsg::BlockRetrievalResponse(payload),
            MsgKind::EpochRetrievalRequest => ConsensusMsg::EpochRetrievalRequest(payload),
            MsgKind::ProposalMsg => ConsensusMsg::ProposalMsg(payload),
            MsgKind::SyncInfo => ConsensusMsg::SyncInfo(payload),
            MsgKind::EpochChangeProof => ConsensusMsg::EpochChangeProof(payload),
            MsgKind::VoteMsg => ConsensusMsg::VoteMsg(payload),
        }
    }

    /// The kind tag of the message.
    pub fn kind(&self) -> (kind: MsgKind)
        ensures
            kind == self@.kind,
    {
        match self {
            ConsensusMsg::BlockRetrievalRequest(_) => MsgKind::BlockRetrievalRequest,
            ConsensusMsg::BlockRetrievalResponse(_) => MsgKind::BlockRetrievalResponse,
            ConsensusMsg::EpochRetrievalRequest(_) => MsgKind::EpochRetrievalRequest,
            ConsensusMsg::ProposalMsg(_) => MsgKind::ProposalMsg,
            ConsensusMsg::SyncInfo(_) => MsgKind::SyncInfo,
            ConsensusMsg::EpochChangeProof(_) => MsgKind::EpochChangeProof,
            ConsensusMsg::VoteMsg(_) => MsgKind::VoteMsg,
        }
    }

    /// The payload that the message carries.
    pub fn payload(&self) -> (payload: &Payload)
        ensures
            payload@ == self@.payload,
    {
        match self {
            ConsensusMsg::BlockRetrievalRequest(p) => p,
            ConsensusMsg::BlockRetrievalResponse(p) => p,
            ConsensusMsg::EpochRetrievalRequest(p) => p,
            ConsensusMsg::ProposalMsg(p) => p,
            ConsensusMsg::SyncInfo(p) => p,
            ConsensusMsg::EpochChangeProof(p) => p,
            ConsensusMsg::VoteMsg(p) => p,
        }
    }
}

impl Clone for ConsensusMsg {
    /// A message of the same kind with a copy of the payload.
    fn clone(&self) -> (copy: ConsensusMsg)
        ensures
            copy@ == self@,
    {
        ConsensusMsg::new(self.kind(), copy_payload(self.payload()))
    }
}

/// The kind of response that answers a request of a given kind, where the
/// kind is one of a request.
pub open spec fn response_kind(request: MsgKind) -> Option<MsgKind> {
    match request {
        MsgKind::BlockRetrievalRequest => Some(MsgKind::BlockRetrievalResponse),
        MsgKind::EpochRetrievalRequest => Some(MsgKind::EpochChangeProof),
        _ => None,
    }
}

/// A request of the RPC channel: one of the two envelope variants that ask
/// for a reply.
#[derive(Debug, PartialEq, Eq)]
pub enum RpcRequest {
    /// Asks for a chain of blocks.
    BlockRetrieval(Payload),
    /// Asks for a proof of epoch changes.
    EpochRetrieval(Payload),
}

impl View for RpcRequest {
    type V = MsgView;

    open spec fn view(&self) -> MsgView {
        match *self {
            RpcRequest::BlockRetrieval(p) => MsgView {
                kind: MsgKind::BlockRetrievalRequest,
                payload: p@,
            },
            RpcRequest::EpochRetrieval(p) => MsgView {
                kind: MsgKind::EpochRetrievalRequest,
                payload: p@,
            },
        }
    }
}

impl RpcRequest {
    /// The kind tag of the request's envelope.
    pub fn kind(&self) -> (kind: MsgKind)
        ensures
            kind == self@.kind,
            response_kind(kind) is Some,
    {
        match self {
            RpcRequest::BlockRetrieval(_) => MsgKind::BlockRetrievalRequest,
            RpcRequest::EpochRetrieval(_) => MsgKind::EpochRetrievalRequest,
        }
    }

    /// The kind of response that answers the request.
    pub fn expects(&self) -> (kind: MsgKind)
        ensures
            Some(kind) == response_kind(self@.kind),
    {
        match self {
            RpcRequest::BlockRetrieval(_) => MsgKind::BlockRetrievalResponse,
            RpcRequest::EpochRetrieval(_) => MsgKind::EpochChangeProof,
        }
    }

    /// The request as a message envelope.
    pub fn into_msg(self) -> (msg: ConsensusMsg)
        ensures
            msg@ == self@,
    {
        match self {
            RpcRequest::BlockRetrieval(p) => ConsensusMsg::BlockRetrievalRequest(p),
            RpcRequest::EpochRetrieval(p) => ConsensusMsg::EpochRetrievalRequest(p),
        }
    }

    /// Reads a message envelope as a request. Only the two request kinds
    /// are one; any other envelope is handed back.
    pub fn from_msg(msg: ConsensusMsg) -> (request: Result<RpcRequest, ConsensusMsg>)
        ensures
            match request {
                Ok(r) => response_kind(msg@.kind) is Some && r@ == msg@,
                Err(m) => response_kind(msg@.kind) is None && m@ == msg@,
            },
    {
        match msg {
            ConsensusMsg::BlockRetrievalRequest(p) => Ok(RpcRequest::BlockRetrieval(p)),
            ConsensusMsg::EpochRetrievalRequest(p) => Ok(RpcRequest::EpochRetrieval(p)),
            other => Err(other),
        }
    }
}

impl Clone for RpcRequest {
    /// A request of the same kind with a copy of the payload.
    fn clone(&self) -> (copy: RpcRequest)
        ensures
            copy@ == self@,
    {
        match self {
            RpcRequest::BlockRetrieval(p) => RpcRequest::BlockRetrieval(copy_payload(p)),
            RpcRequest::EpochRetrieval(p) => RpcRequest::EpochRetrieval(copy_payload(p)),
        }
    }
}

/// Whether a kind is one of a response of the RPC channel.
pub open spec fn is_response_kind(kind: MsgKind) -> bool {
    kind == MsgKind::BlockRetrievalResponse || kind == MsgKind::EpochChangeProof
}

/// A response of the RPC channel: one of the two envelope variants that
/// answer a request.
#[derive(Debug, PartialEq, Eq)]
pub enum RpcResponse {
    /// The blocks that were asked for, with the retrieval status.
    BlockRetrieval(Payload),
    /// The proof of epoch changes that was asked for.
    EpochChange(Payload),
}

impl View for RpcResponse {
    type V = MsgView;

    open spec fn view(&self) -> MsgView {
        match *self {
            RpcResponse::BlockRetrieval(p) => MsgView {
                kind: MsgKind::BlockRetrievalResponse,
                payload: p@,
            },
            RpcResponse::EpochChange(p) => MsgView {
                kind: MsgKind::EpochChangeProof,
                payload: p@,
            },
        }
    }
}

impl RpcResponse {
    /// The kind tag of the response's envelope.
    pub fn kind(&self) -> (kind: MsgKind)
        ensures
            kind == self@.kind,
            is_response_kind(kind),
    {
        match self {
            RpcResponse::BlockRetrieval(_) => MsgKind::BlockRetrievalResponse,
            RpcResponse::EpochChange(_) => MsgKind::EpochChangeProof,
        }
    }

    /// The response as a message envelope.
    pub fn into_msg(self) -> (msg: ConsensusMsg)
        ensures
            msg@ == self@,
    {
        match self {
            RpcResponse::BlockRetrieval(p) => ConsensusMsg::BlockRetrievalResponse(p),
            RpcResponse::EpochChange(p) => ConsensusMsg::EpochChangeProof(p),
        }
    }

    /// Reads a message envelope as a response. Only the two response kinds
    /// are one: a message of the direct channel is never taken for the
    /// reply to a request, and is handed back.
    pub fn from_msg(msg: ConsensusMsg) -> (response: Result<RpcResponse, ConsensusMsg>)
        ensures
            match response {
                Ok(r) => is_response_kind(msg@.kind) && r@ == msg@,
                Err(m) => !is_response_kind(msg@.kind) && m@ == msg@,
            },
    {
        match msg {
            ConsensusMsg::BlockRetrievalResponse(p) => Ok(RpcResponse::BlockRetrieval(p)),
            ConsensusMsg::EpochChangeProof(p) => Ok(RpcResponse::EpochChange(p)),
            other => Err(other),
        }
    }
}

impl Clone for RpcResponse {
    /// A response of the same kind with a copy of the payload.
    fn clone(&self) -> (copy: RpcResponse)
        ensures
            copy@ == self@,
    {
        match self {
            RpcResponse::BlockRetrieval(p) => RpcResponse::BlockRetrieval(copy_payload(p)),
            RpcResponse::EpochChange(p) => RpcResponse::EpochChange(copy_payload(p)),
        }
    }
}

} // verus!
