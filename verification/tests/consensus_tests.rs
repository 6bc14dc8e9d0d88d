use bonded_bft::consensus::{
    BftConsensus, BftMessage, BftMessageType, BftOperationStatus, BftState,
};
use bonded_bft::errors::BftError;
use bonded_bft::node::NodeId;

fn message(
    mt: BftMessageType,
    view: u64,
    sequence: u64,
    sender: NodeId,
    timestamp: u64,
    data_hash: Vec<u8>,
    payload: Vec<u8>,
) -> BftMessage {
    BftMessage {
        message_type: mt,
        view,
        sequence,
        sender,
        timestamp,
        data_hash,
        signature: vec![7u8; 4],
        payload,
    }
}

fn op_payload(id: u64) -> Vec<u8> {
    id.to_be_bytes().to_vec()
}

#[test]
fn fault_tolerance_formula() {
    let mut state = BftState::new(0);
    // n = 4 tolerates one fault and needs three signatures.
    for i in 0..4 {
        state.active_nodes.push(NodeId::new(i));
    }
    assert_eq!(state.get_fault_tolerance(), 1);
    assert_eq!(state.get_required_signatures(), 3);
    // n = 1 tolerates no fault and needs one signature.
    let mut one = BftState::new(0);
    one.active_nodes.push(NodeId::new(9));
    assert_eq!(one.get_fault_tolerance(), 0);
    assert_eq!(one.get_required_signatures(), 1);
    // n = 0, 7, 10.
    assert_eq!(BftState::new(0).get_fault_tolerance(), 0);
    let mut seven = BftState::new(0);
    for i in 0..7 {
        seven.active_nodes.push(NodeId::new(i));
    }
    assert_eq!(seven.get_fault_tolerance(), 2);
    assert_eq!(seven.get_required_signatures(), 5);
}

#[test]
fn equivocation_flags_the_sender() {
    let mut engine = BftConsensus::new(NodeId::new(0), 1);
    let b = NodeId::new(2);
    let m1 = message(BftMessageType::Precommit, 1, 1, b, 5, vec![1, 1], vec![]);
    assert!(engine.process_message(m1, 10).is_ok());
    assert!(!engine.state.is_byzantine_node(&b));
    // Same sender, view, sequence and kind, different hash.
    let m2 = message(BftMessageType::Precommit, 1, 1, b, 6, vec![2, 2], vec![]);
    assert_eq!(engine.process_message(m2, 11), Err(BftError::ByzantineRejection));
    assert!(engine.state.is_byzantine_node(&b));
    // Flagged senders stay rejected.
    let m3 = message(BftMessageType::Heartbeat, 1, 1, b, 7, vec![3], vec![]);
    assert_eq!(engine.process_message(m3, 12), Err(BftError::ByzantineRejection));
}

#[test]
fn unauthentic_messages_are_rejected() {
    let mut engine = BftConsensus::new(NodeId::new(0), 1);
    let s = NodeId::new(5);
    let mut empty_sig = message(BftMessageType::Heartbeat, 0, 0, s, 5, vec![1], vec![]);
    empty_sig.signature = vec![];
    assert_eq!(engine.process_message(empty_sig, 10), Err(BftError::ValidationError));
    assert!(engine.state.is_byzantine_node(&s));

    let mut engine2 = BftConsensus::new(NodeId::new(0), 1);
    let zero_ts = message(BftMessageType::Heartbeat, 0, 0, s, 0, vec![1], vec![]);
    assert_eq!(engine2.process_message(zero_ts, 10), Err(BftError::ValidationError));

    let mut engine3 = BftConsensus::new(NodeId::new(0), 1);
    let empty_hash = message(BftMessageType::Heartbeat, 0, 0, s, 5, vec![], vec![]);
    assert_eq!(engine3.process_message(empty_hash, 10), Err(BftError::ValidationError));
}

#[test]
fn view_or_sequence_jumps_are_rejected() {
    let mut engine = BftConsensus::new(NodeId::new(0), 1);
    let s = NodeId::new(5);
    let jumped = message(BftMessageType::Prevote, 2, 0, s, 5, vec![1], vec![]);
    assert_eq!(engine.process_message(jumped, 10), Err(BftError::ByzantineRejection));
    assert!(engine.state.is_byzantine_node(&s));

    let mut engine2 = BftConsensus::new(NodeId::new(0), 1);
    let s2 = NodeId::new(6);
    let seq_jump = message(BftMessageType::Prevote, 0, 2, s2, 5, vec![1], vec![]);
    assert_eq!(engine2.process_message(seq_jump, 10), Err(BftError::ByzantineRejection));
}

#[test]
fn heartbeat_enrols_the_sender_once() {
    let mut engine = BftConsensus::new(NodeId::new(0), 1);
    let s = NodeId::new(3);
    let hb = message(BftMessageType::Heartbeat, 0, 0, s, 5, vec![1], vec![]);
    assert!(engine.process_message(hb, 10).is_ok());
    assert_eq!(engine.state.active_nodes, vec![s]);
    let hb2 = message(BftMessageType::Heartbeat, 0, 0, s, 6, vec![1], vec![]);
    assert!(engine.process_message(hb2, 11).is_ok());
    assert_eq!(engine.state.active_nodes, vec![s]);
}

#[test]
fn view_change_adopts_only_higher_views() {
    let mut engine = BftConsensus::new(NodeId::new(0), 1);
    let s = NodeId::new(3);
    let up = message(BftMessageType::ViewChange, 1, 0, s, 5, vec![1], vec![]);
    assert!(engine.process_message(up, 10).is_ok());
    assert_eq!(engine.state.current_view, 1);
    let down = message(BftMessageType::ViewChange, 0, 0, s, 6, vec![1], vec![]);
    assert!(engine.process_message(down, 11).is_ok());
    assert_eq!(engine.state.current_view, 1);
}

#[test]
fn byzantine_initiator_cannot_propose() {
    let mut engine = BftConsensus::new(NodeId::new(0), 1);
    let bad = NodeId::new(4);
    engine.state.add_byzantine_flag(bad);
    let r = engine.propose_operation("store".to_string(), bad, vec![1, 2], 5);
    assert_eq!(r, Err(BftError::ByzantineRejection));
}

#[test]
fn full_agreement_round_commits_the_operation() {
    let me = NodeId::new(0);
    let peer = NodeId::new(1);
    let mut engine = BftConsensus::new(me, 1);
    // With an empty roster a single signature is a quorum.
    let op_id = engine.propose_operation("store_ev".to_string(), peer, vec![9, 9], 5).unwrap();
    assert_eq!(op_id, 0);
    assert_eq!(engine.state.pending_operations.len(), 1);
    assert_eq!(engine.state.pending_operations[0].status, BftOperationStatus::Proposed);
    assert_eq!(engine.state.pending_operations[0].required_signatures, 1);

    let propose = message(BftMessageType::Propose, 0, 0, peer, 6, vec![1], op_payload(op_id));
    assert!(engine.process_message(propose, 10).is_ok());
    assert_eq!(engine.state.pending_operations[0].status, BftOperationStatus::Collecting);
    assert_eq!(engine.state.pending_operations[0].collected_signatures.len(), 1);

    let precommit = message(BftMessageType::Precommit, 0, 0, peer, 7, vec![2], op_payload(op_id));
    assert!(engine.process_message(precommit, 11).is_ok());
    assert_eq!(engine.state.pending_operations[0].status, BftOperationStatus::Committed);
    assert_eq!(engine.state.committed_operations, vec![op_id]);
    assert_eq!(engine.state.current_sequence, 1);
}

#[test]
fn verify_data_integrity_recomputes_the_hash() {
    let engine = BftConsensus::new(NodeId::new(0), 1);
    let data = b"stored bytes";
    let good: Vec<u8> = sha2::Sha256::digest(data).to_vec();
    assert!(engine.verify_data_integrity(&good, data));
    let mut bad = good.clone();
    bad[0] ^= 0xff;
    assert!(!engine.verify_data_integrity(&bad, data));
}

#[test]
fn checkpoint_serializes_the_committed_state() {
    let mut engine = BftConsensus::new(NodeId::new(0), 1);
    engine.state.current_view = 2;
    engine.state.current_sequence = 3;
    engine.state.committed_operations.push(7);
    engine.state.committed_operations.push(9);
    engine.state.active_nodes.push(NodeId::new(21));
    let bytes = engine.create_checkpoint(99).unwrap();
    let mut expected: Vec<u8> = Vec::new();
    expected.extend_from_slice(&2u64.to_be_bytes());
    expected.extend_from_slice(&3u64.to_be_bytes());
    expected.extend_from_slice(&99u64.to_be_bytes());
    expected.extend_from_slice(&2u64.to_be_bytes());
    expected.extend_from_slice(&7u64.to_be_bytes());
    expected.extend_from_slice(&9u64.to_be_bytes());
    expected.extend_from_slice(&1u64.to_be_bytes());
    expected.extend_from_slice(&21u64.to_be_bytes());
    assert_eq!(bytes, expected);
    assert_eq!(engine.state.last_checkpoint, 99);
}

use sha2::Digest;

#[test]
fn flooding_sender_is_flagged() {
    let mut engine = BftConsensus::new(NodeId::new(0), 1);
    let s = NodeId::new(8);
    for i in 0..101u64 {
        let hb = message(BftMessageType::Heartbeat, 0, 0, s, 5000 + i, vec![1], vec![]);
        assert!(engine.process_message(hb, 5500).is_ok());
    }
    // The 102nd recent message crosses the flooding limit.
    let hb = message(BftMessageType::Heartbeat, 0, 0, s, 5400, vec![1], vec![]);
    assert_eq!(engine.process_message(hb, 5500), Err(BftError::ByzantineRejection));
    assert!(engine.state.is_byzantine_node(&s));
}

#[test]
fn stale_messages_do_not_count_towards_flooding() {
    let mut engine = BftConsensus::new(NodeId::new(0), 1);
    let s = NodeId::new(8);
    for i in 0..150u64 {
        // Each message is processed long after the previous one left
        // the window.
        let t = 1 + i * 10_000;
        let hb = message(BftMessageType::Heartbeat, 0, 0, s, t, vec![1], vec![]);
        assert!(engine.process_message(hb, t + 5).is_ok());
    }
    assert!(!engine.state.is_byzantine_node(&s));
}
