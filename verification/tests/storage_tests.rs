use bonded_bft::errors::BftError;
use bonded_bft::node::NodeId;
use bonded_bft::storage::{BftReplica, BftStorage};
use sha2::Digest;

fn engine() -> BftStorage {
    BftStorage::new("evidence".to_string(), 3, NodeId::new(1), 1)
}

#[test]
fn store_then_retrieve_returns_the_value() {
    let mut s = engine();
    let data = b"some serialized record".to_vec();
    let op = s.bft_store("k1".to_string(), data.clone(), NodeId::new(2), 5).unwrap();
    assert_eq!(op, 0);
    assert_eq!(s.bft_retrieve("k1"), Ok(data));
    assert_eq!(s.metrics.total_entries, 1);
    assert_eq!(s.metrics.consensus_operations, 1);
}

#[test]
fn retrieve_of_missing_key_is_not_found() {
    let s = engine();
    assert_eq!(s.bft_retrieve("nope"), Err(BftError::NotFound));
}

#[test]
fn corrupting_the_hash_fails_retrieval_and_is_reported() {
    let mut s = engine();
    s.bft_store("k1".to_string(), b"payload one".to_vec(), NodeId::new(2), 5).unwrap();
    s.bft_store("k2".to_string(), b"payload two".to_vec(), NodeId::new(2), 6).unwrap();
    // Corrupt the first entry's stored hash directly.
    s.entries[0].1.hash[0] ^= 0xff;
    assert_eq!(s.bft_retrieve("k1"), Err(BftError::IntegrityFailure));
    assert_eq!(s.bft_retrieve("k2"), Ok(b"payload two".to_vec()));
    let report = s.verify_all_integrity().unwrap();
    assert_eq!(report.total_checked, 2);
    assert_eq!(report.integrity_failed, 1);
    assert_eq!(report.integrity_passed, 1);
    assert_eq!(report.corrupted_entries, vec!["k1".to_string()]);
    assert_eq!(report.recovery_needed, vec!["k1".to_string()]);
    assert_eq!(s.metrics.integrity_failures, 1);
}

#[test]
fn update_bumps_the_version_and_replaces_the_data() {
    let mut s = engine();
    s.bft_store("k".to_string(), b"first".to_vec(), NodeId::new(2), 5).unwrap();
    let op = s.bft_update("k".to_string(), b"second".to_vec(), NodeId::new(2), 7).unwrap();
    assert_eq!(op, 1);
    assert_eq!(s.bft_retrieve("k"), Ok(b"second".to_vec()));
    assert_eq!(s.entries[0].1.version, 2);
    assert_eq!(s.entries[0].1.updated_at, 7);
    assert_eq!(s.entries[0].1.created_at, 5);
    assert_eq!(
        s.bft_update("missing".to_string(), b"x".to_vec(), NodeId::new(2), 8),
        Err(BftError::NotFound)
    );
}

#[test]
fn delete_removes_the_entry_through_consensus() {
    let mut s = engine();
    s.bft_store("k".to_string(), b"bytes".to_vec(), NodeId::new(2), 5).unwrap();
    assert_eq!(s.bft_delete("k".to_string(), NodeId::new(2), 6), Ok(1));
    assert_eq!(s.bft_retrieve("k"), Err(BftError::NotFound));
    assert_eq!(s.metrics.total_entries, 0);
    assert_eq!(
        s.bft_delete("k".to_string(), NodeId::new(2), 7),
        Err(BftError::NotFound)
    );
}

#[test]
fn byzantine_initiator_is_rejected_by_storage() {
    let mut s = engine();
    s.consensus.state.add_byzantine_flag(NodeId::new(9));
    assert_eq!(
        s.bft_store("k".to_string(), b"data".to_vec(), NodeId::new(9), 5),
        Err(BftError::ByzantineRejection)
    );
    assert_eq!(s.metrics.total_entries, 0);
}

fn replica(node: u64, hash: &[u8]) -> BftReplica {
    BftReplica {
        node_id: NodeId::new(node),
        data_hash: hash.to_vec(),
        signature: vec![1, 2, 3],
        timestamp: 5,
    }
}

#[test]
fn minority_hash_replicas_are_reported_byzantine() {
    let mut s = engine();
    s.bft_store("k".to_string(), b"agreed".to_vec(), NodeId::new(2), 5).unwrap();
    let good = s.entries[0].1.hash.clone();
    let bad = sha2::Sha256::digest(b"divergent").to_vec();
    s.entries[0].1.replicas = vec![replica(1, &good), replica(2, &good), replica(3, &bad)];
    let byz = s.detect_byzantine_replicas();
    assert_eq!(byz, vec![NodeId::new(3)]);
    let report = s.verify_all_integrity().unwrap();
    assert_eq!(report.byzantine_nodes, vec![NodeId::new(3)]);
    assert_eq!(s.metrics.byzantine_detections, 1);
}

#[test]
fn agreeing_replicas_raise_no_byzantine_report() {
    let mut s = engine();
    s.bft_store("k".to_string(), b"agreed".to_vec(), NodeId::new(2), 5).unwrap();
    let good = s.entries[0].1.hash.clone();
    s.entries[0].1.replicas = vec![replica(1, &good), replica(2, &good)];
    assert_eq!(s.detect_byzantine_replicas(), Vec::<NodeId>::new());
}

#[test]
fn recovery_succeeds_when_the_majority_agrees_with_the_entry() {
    let mut s = engine();
    s.bft_store("k".to_string(), b"agreed".to_vec(), NodeId::new(2), 5).unwrap();
    assert_eq!(s.recover_corrupted_data("k", 9), Ok(()));
    assert_eq!(s.entries[0].1.version, 2);
    assert_eq!(s.metrics.recovery_operations, 1);
}

#[test]
fn recovery_fails_when_the_majority_disagrees() {
    let mut s = engine();
    s.bft_store("k".to_string(), b"agreed".to_vec(), NodeId::new(2), 5).unwrap();
    let other = sha2::Sha256::digest(b"else").to_vec();
    s.entries[0].1.replicas = vec![replica(1, &other), replica(2, &other)];
    assert_eq!(s.recover_corrupted_data("k", 9), Err(BftError::IntegrityFailure));
}

#[test]
fn recovery_without_replicas_cannot_reach_a_majority() {
    let mut s = engine();
    s.bft_store("k".to_string(), b"agreed".to_vec(), NodeId::new(2), 5).unwrap();
    s.entries[0].1.replicas = vec![];
    assert_eq!(s.recover_corrupted_data("k", 9), Err(BftError::ConsensusFailure));
    assert_eq!(s.recover_corrupted_data("gone", 9), Err(BftError::NotFound));
}

#[test]
fn replicas_stay_bounded_by_the_replication_factor() {
    let mut s = BftStorage::new("ev".to_string(), 1, NodeId::new(1), 1);
    s.bft_store("k".to_string(), b"v1".to_vec(), NodeId::new(2), 5).unwrap();
    assert_eq!(s.entries[0].1.replicas.len(), 1);
    s.bft_update("k".to_string(), b"v2".to_vec(), NodeId::new(2), 6).unwrap();
    assert_eq!(s.entries[0].1.replicas.len(), 1);
}

#[test]
fn zero_replication_factor_keeps_no_replicas() {
    let mut s = BftStorage::new("ev".to_string(), 0, NodeId::new(1), 1);
    s.bft_store("k".to_string(), b"bytes".to_vec(), NodeId::new(2), 5).unwrap();
    assert!(s.entries[0].1.replicas.is_empty());
    assert_eq!(s.bft_retrieve("k"), Ok(b"bytes".to_vec()));
}
