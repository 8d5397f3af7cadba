use consensus_network::address::{AccountAddress, NodeId};
use consensus_network::error::LoopbackError;
use consensus_network::loopback::{LoopbackKey, LoopbackQueue};
use consensus_network::message::{ConsensusMsg, MsgKind};
use consensus_network::sender::ConsensusNetworkSender;

fn address(tag: u8) -> AccountAddress {
    AccountAddress { bytes: [tag; 32] }
}

fn key(tag: u8, kind: MsgKind) -> LoopbackKey {
    LoopbackKey { address: address(tag), kind }
}

#[test]
fn send_self_delivers_one_proposal_without_the_network() {
    let mut sender = ConsensusNetworkSender::new();
    sender.network.start();
    sender.peers.insert(address(1), NodeId { bytes: [1; 64] });
    let me = address(1);
    assert_eq!(sender.send_self_msg(me, ConsensusMsg::ProposalMsg(vec![1, 2, 3])), Ok(()));

    assert_eq!(sender.network.pending(), 0);
    assert_eq!(sender.network.rejected(), 0);
    assert_eq!(sender.rpc.outstanding(), 0);

    let proposals = key(1, MsgKind::ProposalMsg);
    assert_eq!(sender.loopback.waiting(&proposals), 1);
    assert_eq!(sender.loopback.pop(&proposals), Some(ConsensusMsg::ProposalMsg(vec![1, 2, 3])));
    assert_eq!(sender.loopback.pop(&proposals), None);
    assert_eq!(sender.loopback.len(), 0);
}

#[test]
fn send_self_needs_no_running_transport() {
    let mut sender = ConsensusNetworkSender::new();
    assert_eq!(sender.send_self_msg(address(1), ConsensusMsg::VoteMsg(vec![1])), Ok(()));
    assert_eq!(sender.loopback.len(), 1);
    assert_eq!(sender.network.rejected(), 0);
}

#[test]
fn messages_of_one_kind_leave_in_the_order_they_came() {
    let mut sender = ConsensusNetworkSender::new();
    let me = address(1);
    let a = ConsensusMsg::VoteMsg(vec![b'a']);
    let b = ConsensusMsg::VoteMsg(vec![b'b']);
    let c = ConsensusMsg::VoteMsg(vec![b'c']);
    assert_eq!(sender.send_self_msg(me, a.clone()), Ok(()));
    assert_eq!(sender.send_self_msg(me, ConsensusMsg::ProposalMsg(vec![1])), Ok(()));
    assert_eq!(sender.send_self_msg(me, b.clone()), Ok(()));
    assert_eq!(sender.send_self_msg(me, ConsensusMsg::SyncInfo(vec![2])), Ok(()));
    assert_eq!(sender.send_self_msg(me, ConsensusMsg::ProposalMsg(vec![3])), Ok(()));
    assert_eq!(sender.send_self_msg(me, c.clone()), Ok(()));

    let votes = key(1, MsgKind::VoteMsg);
    assert_eq!(sender.loopback.waiting(&votes), 3);
    assert_eq!(sender.loopback.pop(&votes), Some(a));
    assert_eq!(sender.loopback.pop(&votes), Some(b));
    assert_eq!(sender.loopback.pop(&votes), Some(c));
    assert_eq!(sender.loopback.pop(&votes), None);

    let proposals = key(1, MsgKind::ProposalMsg);
    assert_eq!(sender.loopback.pop(&proposals), Some(ConsensusMsg::ProposalMsg(vec![1])));
    assert_eq!(sender.loopback.pop(&proposals), Some(ConsensusMsg::ProposalMsg(vec![3])));
    assert_eq!(sender.loopback.pop(&proposals), None);
    let infos = key(1, MsgKind::SyncInfo);
    assert_eq!(sender.loopback.pop(&infos), Some(ConsensusMsg::SyncInfo(vec![2])));
    assert_eq!(sender.loopback.len(), 0);
}

#[test]
fn taking_one_kind_leaves_the_others_waiting() {
    let mut queue = LoopbackQueue::new();
    let me = address(1);
    assert_eq!(queue.push(me, ConsensusMsg::ProposalMsg(vec![1])), Ok(()));
    assert_eq!(queue.push(me, ConsensusMsg::VoteMsg(vec![2])), Ok(()));
    assert_eq!(queue.push(me, ConsensusMsg::ProposalMsg(vec![3])), Ok(()));
    // The vote came second and can leave first.
    assert_eq!(queue.pop(&key(1, MsgKind::VoteMsg)), Some(ConsensusMsg::VoteMsg(vec![2])));
    assert_eq!(queue.waiting(&key(1, MsgKind::ProposalMsg)), 2);
    assert_eq!(queue.waiting(&key(1, MsgKind::VoteMsg)), 0);
    assert_eq!(queue.len(), 2);
}

#[test]
fn participants_have_queues_of_their_own() {
    let mut queue = LoopbackQueue::new();
    assert_eq!(queue.push(address(1), ConsensusMsg::VoteMsg(vec![1])), Ok(()));
    assert_eq!(queue.push(address(2), ConsensusMsg::VoteMsg(vec![2])), Ok(()));
    assert_eq!(queue.push(address(1), ConsensusMsg::VoteMsg(vec![3])), Ok(()));
    assert_eq!(queue.waiting(&key(1, MsgKind::VoteMsg)), 2);
    assert_eq!(queue.waiting(&key(2, MsgKind::VoteMsg)), 1);
    assert_eq!(queue.waiting(&key(3, MsgKind::VoteMsg)), 0);
    assert_eq!(queue.pop(&key(2, MsgKind::VoteMsg)), Some(ConsensusMsg::VoteMsg(vec![2])));
    assert_eq!(queue.pop(&key(1, MsgKind::VoteMsg)), Some(ConsensusMsg::VoteMsg(vec![1])));
    assert_eq!(queue.pop(&key(1, MsgKind::VoteMsg)), Some(ConsensusMsg::VoteMsg(vec![3])));
    assert_eq!(queue.pop(&key(3, MsgKind::VoteMsg)), None);
}

#[test]
fn key_depends_on_address_and_kind_not_on_payload() {
    let me = address(5);
    let short = ConsensusMsg::SyncInfo(vec![]);
    let long = ConsensusMsg::SyncInfo(vec![1; 100]);
    assert_eq!(LoopbackKey::of(me, &short), LoopbackKey::of(me, &long));
    assert_eq!(LoopbackKey::of(me, &short), key(5, MsgKind::SyncInfo));
    assert_ne!(LoopbackKey::of(me, &short), LoopbackKey::of(address(6), &short));
    assert_ne!(
        LoopbackKey::of(me, &ConsensusMsg::VoteMsg(vec![])),
        LoopbackKey::of(me, &ConsensusMsg::ProposalMsg(vec![]))
    );
}

#[test]
fn every_kind_has_a_key_of_its_own() {
    let me = address(1);
    let msgs = [
        ConsensusMsg::BlockRetrievalRequest(vec![0]),
        ConsensusMsg::BlockRetrievalResponse(vec![1]),
        ConsensusMsg::EpochRetrievalRequest(vec![2]),
        ConsensusMsg::ProposalMsg(vec![3]),
        ConsensusMsg::SyncInfo(vec![4]),
        ConsensusMsg::EpochChangeProof(vec![5]),
        ConsensusMsg::VoteMsg(vec![6]),
    ];
    let mut queue = LoopbackQueue::new();
    for m in msgs.iter() {
        assert_eq!(queue.push(me, m.clone()), Ok(()));
    }
    for m in msgs.iter().rev() {
        let k = LoopbackKey::of(me, m);
        assert_eq!(queue.waiting(&k), 1);
        assert_eq!(queue.pop(&k), Some(m.clone()));
    }
    assert_eq!(queue.len(), 0);
}

#[test]
fn send_self_fails_when_the_queue_is_torn_down() {
    let mut sender = ConsensusNetworkSender::new();
    let me = address(1);
    assert_eq!(sender.send_self_msg(me, ConsensusMsg::VoteMsg(vec![1])), Ok(()));
    sender.loopback.close();
    assert!(sender.loopback.is_closed());
    assert_eq!(
        sender.send_self_msg(me, ConsensusMsg::VoteMsg(vec![2])),
        Err(LoopbackError::Closed)
    );
    assert_eq!(sender.loopback.len(), 1);
}

#[test]
fn torn_down_queue_can_still_be_emptied() {
    let mut queue = LoopbackQueue::new();
    assert!(!queue.is_closed());
    assert_eq!(queue.push(address(1), ConsensusMsg::VoteMsg(vec![1])), Ok(()));
    queue.close();
    assert_eq!(queue.pop(&key(1, MsgKind::VoteMsg)), Some(ConsensusMsg::VoteMsg(vec![1])));
    assert_eq!(queue.pop(&key(1, MsgKind::VoteMsg)), None);
    assert!(queue.is_closed());
}
