use bonded_bft::consensus::{BftConsensus, BftMessage, BftMessageType};
use bonded_bft::errors::{BftError, BftResult};
use bonded_bft::manager::{BftManager, BftRecoverySystem, BftSystemState};
use bonded_bft::node::NodeId;

#[test]
fn health_score_follows_the_formula() {
    let mut st = BftSystemState::new(0);
    st.total_operations = 10;
    st.successful_operations = 8;
    st.byzantine_detections = 1;
    st.recovery_operations = 1;
    st.update_health_score();
    // 80 - 5 - 2
    assert_eq!(st.system_health_score, 73);

    st.total_operations = 0;
    st.successful_operations = 0;
    st.byzantine_detections = 0;
    st.recovery_operations = 0;
    st.update_health_score();
    assert_eq!(st.system_health_score, 100);

    st.total_operations = 4;
    st.successful_operations = 1;
    st.byzantine_detections = 10;
    st.recovery_operations = 0;
    st.update_health_score();
    assert_eq!(st.system_health_score, 0);
}

#[test]
fn corruption_reports_enqueue_once() {
    let mut rs = BftRecoverySystem::new();
    rs.report_corruption("e1".to_string(), "hash mismatch".to_string(), 5).unwrap();
    rs.report_corruption("e1".to_string(), "hash mismatch".to_string(), 6).unwrap();
    assert_eq!(rs.recovery_queue, vec!["e1".to_string()]);
    assert_eq!(rs.corrupted_entries.len(), 1);
    assert!(rs.corrupted_entries[0].1.is_recoverable);
    assert_eq!(rs.corrupted_entries[0].1.recovery_attempts, 0);
}

#[test]
fn first_attempt_recovers_and_clears_the_entry() {
    let mut rs = BftRecoverySystem::new();
    rs.report_corruption("e1".to_string(), "hash mismatch".to_string(), 5).unwrap();
    assert_eq!(rs.attempt_recovery("e1", 9), Ok(true));
    assert!(rs.recovery_queue.is_empty());
    assert!(rs.corrupted_entries.is_empty());
    assert!(rs.recovery_attempts.is_empty());
}

#[test]
fn attempts_never_succeed_past_the_cap() {
    let mut rs = BftRecoverySystem::new();
    rs.report_corruption("e1".to_string(), "hash mismatch".to_string(), 5).unwrap();
    // Drive the per-entry counter to the cap directly.
    rs.recovery_attempts.push(("e1".to_string(), 3));
    assert_eq!(rs.max_recovery_attempts, 3);
    assert_eq!(rs.attempt_recovery("e1", 9), Ok(false));
    assert_eq!(rs.attempt_recovery("e1", 10), Ok(false));
    assert_eq!(rs.attempt_recovery("e1", 11), Ok(false));
    // The entry stays queued and its record unchanged.
    assert_eq!(rs.recovery_queue, vec!["e1".to_string()]);
    assert!(rs.corrupted_entries[0].1.is_recoverable);
    assert_eq!(rs.recovery_attempts, vec![("e1".to_string(), 3)]);
}

#[test]
fn third_failed_attempt_exhausts_the_budget() {
    let mut rs = BftRecoverySystem::new();
    rs.report_corruption("e1".to_string(), "hash mismatch".to_string(), 5).unwrap();
    // Two attempts already failed; the third is the last one made.
    rs.recovery_attempts.push(("e1".to_string(), 2));
    assert_eq!(rs.attempt_recovery("e1", 9), Ok(false));
    assert_eq!(rs.recovery_attempts, vec![("e1".to_string(), 3)]);
    assert_eq!(rs.corrupted_entries[0].1.recovery_attempts, 3);
    assert_eq!(rs.corrupted_entries[0].1.last_recovery_attempt, 9);
    // From now on every attempt is refused.
    assert_eq!(rs.attempt_recovery("e1", 10), Ok(false));
    assert_eq!(rs.recovery_attempts, vec![("e1".to_string(), 3)]);
}

#[test]
fn recover_system_tallies_the_queue() {
    let mut m = BftManager::new(0);
    m.recovery.report_corruption("a".to_string(), "t".to_string(), 1).unwrap();
    m.recovery.report_corruption("b".to_string(), "t".to_string(), 2).unwrap();
    // "b" has exhausted its attempts already.
    m.recovery.recovery_attempts.push(("b".to_string(), 3));
    let report = match m.recover_system(9) {
        BftResult::Success(r) => r,
        BftResult::Failure(e) => panic!("{}", e),
    };
    assert_eq!(report.total_corrupted, 2);
    assert_eq!(report.successfully_recovered, 1);
    assert_eq!(report.failed_recoveries, 1);
    assert_eq!(report.recovery_operations.len(), 2);
    assert_eq!(report.recovery_operations[0].entry_id, "a".to_string());
    assert_eq!(report.recovery_operations[0].status, "success".to_string());
    assert_eq!(report.recovery_operations[1].entry_id, "b".to_string());
    assert_eq!(report.recovery_operations[1].status, "failed".to_string());
    assert_eq!(m.state.recovery_operations, 1);
    assert_eq!(m.recovery.recovery_queue, vec!["b".to_string()]);
}

#[test]
fn initialize_enrols_the_caller() {
    let mut m = BftManager::new(0);
    let a = NodeId::new(1);
    let status = match m.initialize_system(a, 5) {
        BftResult::Success(s) => s,
        BftResult::Failure(e) => panic!("{}", e),
    };
    assert!(status.is_active);
    assert_eq!(status.active_nodes, 1);
    assert_eq!(status.byzantine_nodes, 0);
    assert_eq!(status.health_score, 100);
    assert_eq!(status.fault_tolerance, 0);
    // Enrolling again does not duplicate.
    m.initialize_system(a, 6);
    assert_eq!(m.state.active_nodes, vec![a]);
}

#[test]
fn topology_publishes_the_quorum_arithmetic() {
    let mut m = BftManager::new(0);
    for i in 1..=4 {
        m.initialize_system(NodeId::new(i), 5);
    }
    let t = match m.get_network_topology() {
        BftResult::Success(t) => t,
        BftResult::Failure(e) => panic!("{}", e),
    };
    assert_eq!(t.total_nodes, 4);
    assert_eq!(t.fault_tolerance, 1);
    assert_eq!(t.consensus_threshold, 3);
    assert_eq!(t.network_health, 100);
}

#[test]
fn byzantine_report_moves_the_node_off_the_roster() {
    let mut m = BftManager::new(0);
    let a = NodeId::new(1);
    let b = NodeId::new(2);
    m.initialize_system(a, 5);
    m.initialize_system(b, 5);
    let msg = match m.report_byzantine_behavior(b, "equivocation".to_string(), vec![1]) {
        BftResult::Success(s) => s,
        BftResult::Failure(e) => panic!("{}", e),
    };
    assert_eq!(msg, "Byzantine behavior report processed".to_string());
    assert_eq!(m.state.active_nodes, vec![a]);
    assert_eq!(m.state.byzantine_nodes, vec![b]);
    assert_eq!(m.state.byzantine_detections, 1);
    // A second report does not double-count.
    m.report_byzantine_behavior(b, "again".to_string(), vec![]);
    assert_eq!(m.state.byzantine_detections, 1);
}

#[test]
fn health_check_reports_thin_rosters() {
    let mut m = BftManager::new(0);
    m.initialize_system(NodeId::new(1), 5);
    let report = match m.perform_health_check(9) {
        BftResult::Success(r) => r,
        BftResult::Failure(e) => panic!("{}", e),
    };
    assert_eq!(report.timestamp, 9);
    assert_eq!(report.overall_health_score, 100);
    assert_eq!(report.consensus_status, "active".to_string());
    assert_eq!(
        report.critical_issues,
        vec!["Insufficient active nodes for BFT".to_string()]
    );
    assert_eq!(
        report.recommendations,
        vec!["Address critical issues immediately".to_string()]
    );
    assert_eq!(report.node_statuses.len(), 1);
    assert_eq!(report.node_statuses[0].0, NodeId::new(1));
    assert_eq!(report.node_statuses[0].1.health_score, 100);
    assert!(report.node_statuses[0].1.alerts.is_empty());
}

#[test]
fn equivocating_node_ends_up_in_the_published_byzantine_set() {
    // Consensus domain with nodes A, B, C, D enrolled by heartbeat.
    let a = NodeId::new(1);
    let b = NodeId::new(2);
    let c = NodeId::new(3);
    let d = NodeId::new(4);
    let mut engine = BftConsensus::new(a, 0);
    for n in [a, b, c, d] {
        let hb = BftMessage {
            message_type: BftMessageType::Heartbeat,
            view: 0,
            sequence: 0,
            sender: n,
            timestamp: 1,
            data_hash: vec![1],
            signature: vec![1],
            payload: vec![],
        };
        assert!(engine.process_message(hb, 2).is_ok());
    }
    assert_eq!(engine.state.active_nodes, vec![a, b, c, d]);
    // B sends conflicting precommits for the same view and sequence.
    let m1 = BftMessage {
        message_type: BftMessageType::Precommit,
        view: 1,
        sequence: 1,
        sender: b,
        timestamp: 3,
        data_hash: vec![0xaa],
        signature: vec![1],
        payload: vec![],
    };
    let m2 = BftMessage {
        message_type: BftMessageType::Precommit,
        view: 1,
        sequence: 1,
        sender: b,
        timestamp: 4,
        data_hash: vec![0xbb],
        signature: vec![1],
        payload: vec![],
    };
    assert!(engine.process_message(m1, 5).is_ok());
    assert_eq!(engine.process_message(m2, 6), Err(BftError::ByzantineRejection));
    assert_eq!(engine.state.active_nodes, vec![a, c, d]);
    assert_eq!(engine.state.byzantine_nodes, vec![b]);
    // The manager publishes the detection in its topology.
    let mut m = BftManager::new(0);
    for n in [a, b, c, d] {
        m.initialize_system(n, 7);
    }
    m.report_byzantine_behavior(b, "equivocation".to_string(), vec![0xaa, 0xbb]);
    let t = match m.get_network_topology() {
        BftResult::Success(t) => t,
        BftResult::Failure(e) => panic!("{}", e),
    };
    assert_eq!(t.byzantine_nodes, vec![b]);
    assert_eq!(t.active_nodes, vec![a, c, d]);
}

#[test]
fn low_uptime_raises_an_alert() {
    let mut m = BftManager::new(0);
    let a = NodeId::new(1);
    m.initialize_system(a, 5);
    let j = m
        .monitor
        .performance_metrics
        .iter()
        .position(|(n, _)| *n == a)
        .unwrap();
    m.monitor.performance_metrics[j].1.uptime_percentage = 50;
    m.monitor.performance_metrics[j].1.byzantine_flags = 4;
    let alerts = m.monitor.check_node_health(&a);
    assert_eq!(
        alerts,
        vec![
            "Excessive Byzantine behavior detected".to_string(),
            "Low uptime detected".to_string()
        ]
    );
}
