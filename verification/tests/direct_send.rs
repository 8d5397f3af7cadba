use consensus_network::address::{AccountAddress, NodeId};
use consensus_network::error::NetworkError;
use consensus_network::message::ConsensusMsg;
use consensus_network::sender::ConsensusNetworkSender;
use consensus_network::transport::{Transmission, HSB_PROTOCOL_ID};

fn address(tag: u8) -> AccountAddress {
    AccountAddress { bytes: [tag; 32] }
}

fn handle(tag: u8) -> NodeId {
    NodeId { bytes: [tag; 64] }
}

fn running_sender() -> ConsensusNetworkSender {
    let mut sender = ConsensusNetworkSender::new();
    sender.network.start();
    sender
}

fn drain(sender: &mut ConsensusNetworkSender) -> Vec<Transmission> {
    let mut out = Vec::new();
    while let Some(t) = sender.network.next_transmission() {
        out.push(t);
    }
    out
}

#[test]
fn send_to_unknown_peer_succeeds_without_hand_off() {
    let mut sender = running_sender();
    sender.peers.insert(address(1), handle(1));
    let vote = ConsensusMsg::VoteMsg(vec![7, 7, 7]);
    assert_eq!(sender.send_to(address(9), &vote), Ok(()));
    assert_eq!(sender.network.pending(), 0);
    assert_eq!(sender.network.rejected(), 0);
    assert!(sender.network.next_transmission().is_none());
}

#[test]
fn send_to_unknown_peer_succeeds_even_when_transport_is_down() {
    let mut sender = ConsensusNetworkSender::new();
    let vote = ConsensusMsg::VoteMsg(vec![1]);
    assert_eq!(sender.send_to(address(9), &vote), Ok(()));
    assert_eq!(sender.network.pending(), 0);
    assert_eq!(sender.network.rejected(), 0);
}

#[test]
fn send_to_known_peer_hands_off_one_direct_transmission() {
    let mut sender = running_sender();
    sender.peers.insert(address(1), handle(11));
    let proposal = ConsensusMsg::ProposalMsg(vec![1, 2, 3, 4]);
    assert_eq!(sender.send_to(address(1), &proposal), Ok(()));
    assert_eq!(sender.network.pending(), 1);
    assert_eq!(
        sender.network.next_transmission(),
        Some(Transmission::Direct {
            protocol: HSB_PROTOCOL_ID,
            peer: handle(11),
            msg: ConsensusMsg::ProposalMsg(vec![1, 2, 3, 4]),
        })
    );
    assert_eq!(sender.network.pending(), 0);
}

#[test]
fn protocol_identifier_spells_hsb() {
    assert_eq!(&HSB_PROTOCOL_ID, b"hsb");
}

#[test]
fn send_to_reports_refusal_of_the_transport() {
    let mut sender = ConsensusNetworkSender::new();
    sender.peers.insert(address(1), handle(11));
    let vote = ConsensusMsg::VoteMsg(vec![5]);
    assert_eq!(sender.send_to(address(1), &vote), Err(NetworkError::NotStarted));
    assert_eq!(sender.network.pending(), 0);
    assert_eq!(sender.network.rejected(), 1);
}

#[test]
fn send_to_works_again_after_restart() {
    let mut sender = running_sender();
    sender.peers.insert(address(1), handle(11));
    let vote = ConsensusMsg::VoteMsg(vec![5]);
    sender.network.stop();
    assert_eq!(sender.send_to(address(1), &vote), Err(NetworkError::NotStarted));
    sender.network.start();
    assert_eq!(sender.send_to(address(1), &vote), Ok(()));
    assert_eq!(sender.network.pending(), 1);
    assert_eq!(sender.network.rejected(), 1);
}

#[test]
fn send_to_many_skips_unresolved_and_reaches_the_rest() {
    let mut sender = running_sender();
    sender.peers.insert(address(1), handle(11));
    sender.peers.insert(address(3), handle(33));
    let info = ConsensusMsg::SyncInfo(vec![9, 8]);
    let recipients = vec![address(1), address(2), address(3), address(4)];
    assert_eq!(sender.send_to_many(recipients, &info), Ok(()));
    let sent = drain(&mut sender);
    assert_eq!(
        sent,
        vec![
            Transmission::Direct {
                protocol: HSB_PROTOCOL_ID,
                peer: handle(11),
                msg: ConsensusMsg::SyncInfo(vec![9, 8]),
            },
            Transmission::Direct {
                protocol: HSB_PROTOCOL_ID,
                peer: handle(33),
                msg: ConsensusMsg::SyncInfo(vec![9, 8]),
            },
        ]
    );
    assert_eq!(sender.network.rejected(), 0);
}

#[test]
fn send_to_many_succeeds_and_counts_when_every_hand_off_is_refused() {
    let mut sender = ConsensusNetworkSender::new();
    sender.peers.insert(address(1), handle(11));
    sender.peers.insert(address(2), handle(22));
    sender.peers.insert(address(3), handle(33));
    let info = ConsensusMsg::SyncInfo(vec![]);
    let recipients = vec![address(1), address(7), address(2), address(3)];
    assert_eq!(sender.send_to_many(recipients, &info), Ok(()));
    assert_eq!(sender.network.pending(), 0);
    assert_eq!(sender.network.rejected(), 3);
}

#[test]
fn send_to_many_with_no_recipients_does_nothing() {
    let mut sender = running_sender();
    sender.peers.insert(address(1), handle(11));
    let info = ConsensusMsg::SyncInfo(vec![1]);
    assert_eq!(sender.send_to_many(Vec::new(), &info), Ok(()));
    assert_eq!(sender.network.pending(), 0);
    assert_eq!(sender.network.rejected(), 0);
}

#[test]
fn send_to_many_hands_off_twice_to_a_recipient_named_twice() {
    let mut sender = running_sender();
    sender.peers.insert(address(1), handle(11));
    let vote = ConsensusMsg::VoteMsg(vec![3]);
    assert_eq!(sender.send_to_many(vec![address(1), address(1)], &vote), Ok(()));
    assert_eq!(sender.network.pending(), 2);
}

#[test]
fn send_to_many_is_send_to_for_each_in_turn() {
    let recipients = vec![address(4), address(1), address(5), address(2)];
    let msg = ConsensusMsg::EpochChangeProof(vec![1, 1, 2, 3, 5]);

    let mut many = running_sender();
    let mut single = running_sender();
    for s in [&mut many, &mut single] {
        s.peers.insert(address(1), handle(11));
        s.peers.insert(address(2), handle(22));
    }
    assert_eq!(many.send_to_many(recipients.clone(), &msg), Ok(()));
    for r in recipients {
        assert_eq!(single.send_to(r, &msg), Ok(()));
    }
    assert_eq!(drain(&mut many), drain(&mut single));
}

#[test]
fn lookup_is_made_anew_for_every_send() {
    let mut sender = running_sender();
    let vote = ConsensusMsg::VoteMsg(vec![1]);
    assert_eq!(sender.send_to(address(1), &vote), Ok(()));
    assert_eq!(sender.network.pending(), 0);

    sender.peers.insert(address(1), handle(11));
    assert_eq!(sender.send_to(address(1), &vote), Ok(()));
    assert_eq!(sender.network.pending(), 1);

    sender.peers.insert(address(1), handle(12));
    assert_eq!(sender.send_to(address(1), &vote), Ok(()));

    sender.peers.remove(&address(1));
    assert_eq!(sender.send_to(address(1), &vote), Ok(()));
    assert_eq!(sender.network.pending(), 2);

    let sent = drain(&mut sender);
    let peers: Vec<NodeId> = sent
        .into_iter()
        .map(|t| match t {
            Transmission::Direct { peer, .. } => peer,
            Transmission::Request { .. } => panic!("a direct send made a request"),
        })
        .collect();
    assert_eq!(peers, vec![handle(11), handle(12)]);
}

#[test]
fn direct_sends_touch_neither_slots_nor_loopback() {
    let mut sender = running_sender();
    sender.peers.insert(address(1), handle(11));
    let vote = ConsensusMsg::VoteMsg(vec![1]);
    assert_eq!(sender.send_to(address(1), &vote), Ok(()));
    assert_eq!(sender.send_to_many(vec![address(1), address(2)], &vote), Ok(()));
    assert_eq!(sender.rpc.outstanding(), 0);
    assert_eq!(sender.rpc.issued(), 0);
    assert_eq!(sender.loopback.len(), 0);
    assert_eq!(sender.peers.len(), 1);
}

#[test]
fn hand_off_copies_the_payload() {
    let mut sender = running_sender();
    sender.peers.insert(address(1), handle(11));
    let payload: Vec<u8> = (0..=255).collect();
    let msg = ConsensusMsg::BlockRetrievalResponse(payload.clone());
    assert_eq!(sender.send_to(address(1), &msg), Ok(()));
    match sender.network.next_transmission() {
        Some(Transmission::Direct { msg: sent, .. }) => {
            assert_eq!(sent, ConsensusMsg::BlockRetrievalResponse(payload));
        }
        other => panic!("unexpected transmission: {:?}", other),
    }
}
