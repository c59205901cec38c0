use zephyrfs::redundancy::reputation_system::{count_consecutive_failures, EventType};
use zephyrfs::redundancy::auto_replication::{
    NodeFailureTracker, find_affected_chunks,
    default_escalation_timeouts, default_fallback_strategies, default_optimization_goals, FailureDetectionConfig,
    FailureType, FallbackStrategy, NodeState, NodeStatus, FAILURE_HISTORY_LIMIT,
    plan_replication, ReplicationDecision, TaskStatus,
};
use zephyrfs::text::format_signed;
use zephyrfs::clock::millis_from_offset;

#[test]
fn node_status_updates() {
    let mut node = NodeStatus::first_seen("node1".to_string(), NodeState::Online, 100);
    assert_eq!(node.consecutive_failures, 0);
    node.observe(NodeState::Offline, 200);
    assert_eq!(node.status, NodeState::Offline);
    assert_eq!(node.consecutive_failures, 1);
    assert_eq!(node.failure_history.len(), 1);
    assert_eq!(node.failure_history[0].timestamp, 200);
    assert_eq!(node.failure_history[0].failure_type, FailureType::NetworkTimeout);
    node.observe(NodeState::Unknown, 250);
    assert_eq!(node.consecutive_failures, 1);
    node.observe(NodeState::Online, 300);
    assert_eq!(node.consecutive_failures, 0);
    assert_eq!(node.failure_history.len(), 1);
    assert_eq!(node.last_seen, 300);
}

#[test]
fn failure_history_keeps_latest_hundred() {
    let mut node = NodeStatus::first_seen("n".to_string(), NodeState::Online, 0);
    for t in 1..=150i64 {
        node.observe(NodeState::Degraded, 2 * t);
        node.observe(NodeState::Online, 2 * t + 1);
    }
    assert_eq!(node.failure_history.len(), FAILURE_HISTORY_LIMIT);
    assert_eq!(node.failure_history[0].timestamp, 102);
    assert_eq!(node.failure_history[99].timestamp, 300);
}

#[test]
fn failure_detection() {
    let config = FailureDetectionConfig::default();
    assert_eq!(config.offline_timeout_seconds, 180);
    let online = NodeStatus::first_seen("node1".to_string(), NodeState::Online, 1_000_000);
    assert!(!online.is_failed(1_180_000, config.offline_timeout_seconds));
    assert!(online.is_failed(1_180_001, config.offline_timeout_seconds));
    // Seen at 0.9 s and checked at 180.95 s: more than 180 s have passed.
    let recent = NodeStatus::first_seen("node5".to_string(), NodeState::Online, 900);
    assert!(recent.is_failed(180_950, config.offline_timeout_seconds));
    let offline = NodeStatus::first_seen("node2".to_string(), NodeState::Offline, 1000);
    assert!(offline.is_failed(1000, config.offline_timeout_seconds));
    let unknown = NodeStatus::first_seen("node3".to_string(), NodeState::Unknown, 1000);
    assert!(unknown.is_failed(1000, config.offline_timeout_seconds));
    let suspected = NodeStatus::first_seen("node4".to_string(), NodeState::Suspected, 1000);
    assert!(!suspected.is_failed(1000, config.offline_timeout_seconds));
}

#[test]
fn replication_defaults() {
    let goals = default_optimization_goals();
    assert!(goals.minimize_cost && goals.maximize_durability && !goals.prefer_high_performance_nodes);
    assert_eq!(default_fallback_strategies()[1], FallbackStrategy::RelaxGeographicConstraints);
    let t = default_escalation_timeouts();
    assert_eq!((t.initial_response_minutes, t.max_escalation_levels), (5, 3));
}

use zephyrfs::redundancy::health_monitor::{
    channel_accepts, generate_recommendations, replica_count_risk, tally_replicas, HealthStatus, NotificationChannel,
    NotificationType, ReplicaStatus, RiskSeverity,
};
use zephyrfs::redundancy::intelligent_replication::{
    binomial_coefficient, clamp_replicas, connection_quality_matches, factorial, ConnectionQuality,
};

#[test]
fn factorials_and_binomials() {
    assert_eq!(factorial(0), 1);
    assert_eq!(factorial(5), 120);
    assert_eq!(factorial(20), 2432902008176640000);
    assert_eq!(binomial_coefficient(5, 2), 10);
    assert_eq!(binomial_coefficient(9, 6), 84);
    assert_eq!(binomial_coefficient(20, 10), 184756);
    assert_eq!(binomial_coefficient(3, 4), 0);
}

#[test]
fn connection_requirements() {
    assert!(connection_quality_matches(ConnectionQuality::Fiber, ConnectionQuality::Satellite));
    assert!(!connection_quality_matches(ConnectionQuality::Broadband, ConnectionQuality::Fiber));
    assert!(connection_quality_matches(ConnectionQuality::Mobile, ConnectionQuality::Mobile));
    assert!(!connection_quality_matches(ConnectionQuality::Mobile, ConnectionQuality::Broadband));
    assert!(!connection_quality_matches(ConnectionQuality::Satellite, ConnectionQuality::Mobile));
    assert!(connection_quality_matches(ConnectionQuality::Satellite, ConnectionQuality::Satellite));
}

#[test]
fn replica_targets_are_clamped() {
    assert_eq!(clamp_replicas(7, 3, 10), 7);
    assert_eq!(clamp_replicas(1, 3, 10), 3);
    assert_eq!(clamp_replicas(12, 3, 10), 10);
    assert_eq!(clamp_replicas(5, 8, 4), 4);
}

#[test]
fn replica_tally_and_risk() {
    let t = tally_replicas(&[
        ReplicaStatus::Healthy,
        ReplicaStatus::Slow,
        ReplicaStatus::Missing,
        ReplicaStatus::Healthy,
        ReplicaStatus::Degraded,
    ]);
    assert_eq!((t.healthy, t.degraded, t.unhealthy), (2, 2, 1));
    assert_eq!(replica_count_risk(t.healthy), Some(RiskSeverity::High));
    assert_eq!(replica_count_risk(1), Some(RiskSeverity::Critical));
    assert_eq!(replica_count_risk(3), None);
}

#[test]
fn health_recommendations() {
    let failed = generate_recommendations(HealthStatus::Failed);
    assert_eq!(failed.len(), 3);
    assert!(failed[0].starts_with("URGENT"));
    assert_eq!(generate_recommendations(HealthStatus::Good).len(), 2);
    assert_eq!(generate_recommendations(HealthStatus::Excellent)[0], "Maintain current configuration");
}

#[test]
fn notification_channel_filter() {
    let mut ch = NotificationChannel {
        channel_type: NotificationType::Email,
        endpoint: "ops@example.org".to_string(),
        severity_filter: vec![RiskSeverity::High, RiskSeverity::Critical],
        enabled: true,
    };
    assert!(channel_accepts(&ch, RiskSeverity::Critical));
    assert!(!channel_accepts(&ch, RiskSeverity::Low));
    ch.enabled = false;
    assert!(!channel_accepts(&ch, RiskSeverity::Critical));
}

#[test]
fn longest_failure_run_is_counted() {
    let f = EventType::NodeFailure;
    let s = EventType::SlowResponse;
    assert_eq!(count_consecutive_failures(&[]), 0);
    assert_eq!(count_consecutive_failures(&[s, s]), 0);
    assert_eq!(count_consecutive_failures(&[f]), 1);
    assert_eq!(count_consecutive_failures(&[f, f, s, f, f, f, s, f]), 3);
    assert_eq!(count_consecutive_failures(&[s, f, f, EventType::DataCorruption, f]), 2);
}

#[test]
fn test_node_status_updates() {
    let mut manager = NodeFailureTracker::new();

    // Add node as online
    manager.update_node_status("node1".to_string(), NodeState::Online);
    assert_eq!(manager.node_status.len(), 1);

    // Update to offline
    manager.update_node_status("node1".to_string(), NodeState::Offline);
    let status = manager.node_status.iter().find(|n| n.node_id == "node1").unwrap();
    assert_eq!(status.consecutive_failures, 1);
    assert!(!status.failure_history.is_empty());

    // Back to online
    manager.update_node_status("node1".to_string(), NodeState::Online);
    let status = manager.node_status.iter().find(|n| n.node_id == "node1").unwrap();
    assert_eq!(status.consecutive_failures, 0);
}

#[test]
fn test_failure_detection() {
    let mut manager = NodeFailureTracker::new();

    // Add some nodes
    manager.update_node_status("node1".to_string(), NodeState::Online);
    manager.update_node_status("node2".to_string(), NodeState::Offline);
    manager.update_node_status("node3".to_string(), NodeState::Unknown);

    let failed_nodes = manager.detect_failed_nodes();
    assert!(failed_nodes.contains(&"node2".to_string()));
    assert!(failed_nodes.contains(&"node3".to_string()));
    assert!(!failed_nodes.contains(&"node1".to_string()));
}

#[test]
fn silent_nodes_count_as_failed_after_the_timeout() {
    let mut t = NodeFailureTracker::new();
    t.update_node_status_at("a".to_string(), NodeState::Online, 1_000_000);
    t.update_node_status_at("b".to_string(), NodeState::Online, 1_100_000);
    t.update_node_status_at("c".to_string(), NodeState::Maintenance, 1_000_000);
    assert_eq!(t.failed_nodes_at(1_180_000), Vec::<String>::new());
    assert_eq!(t.failed_nodes_at(1_180_001), vec!["a".to_string(), "c".to_string()]);
    t.update_node_status_at("a".to_string(), NodeState::Online, 1_180_001);
    assert_eq!(t.node_status.len(), 3);
    assert_eq!(t.failed_nodes_at(1_280_001), vec!["b".to_string(), "c".to_string()]);
}

#[test]
fn chunks_with_a_replica_on_a_failed_node_are_affected() {
    let chunks = vec![
        ("c1".to_string(), vec!["n1".to_string(), "n2".to_string()]),
        ("c2".to_string(), vec!["n3".to_string()]),
        ("c3".to_string(), vec![]),
        ("c4".to_string(), vec!["n4".to_string(), "n2".to_string()]),
    ];
    let failed = vec!["n2".to_string(), "n9".to_string()];
    assert_eq!(find_affected_chunks(&chunks, &failed), vec!["c1".to_string(), "c4".to_string()]);
    assert!(find_affected_chunks(&chunks, &[]).is_empty());
}

#[test]
fn replication_reuses_a_running_task() {
    let active = vec![
        ("repl_a_1".to_string(), "a".to_string(), TaskStatus::Completed),
        ("repl_b_2".to_string(), "b".to_string(), TaskStatus::Queued),
        ("repl_a_3".to_string(), "a".to_string(), TaskStatus::Executing),
        ("repl_a_4".to_string(), "a".to_string(), TaskStatus::Queued),
    ];
    let replicas = vec![("r1".to_string(), ReplicaStatus::Healthy)];
    assert_eq!(
        plan_replication(&active, "a", &replicas, 10),
        ReplicationDecision::AlreadyRunning("repl_a_3".to_string())
    );
}

#[test]
fn replication_creates_a_task_from_healthy_replicas() {
    let active = vec![("repl_a_1".to_string(), "a".to_string(), TaskStatus::Failed)];
    let replicas = vec![
        ("r1".to_string(), ReplicaStatus::Healthy),
        ("r2".to_string(), ReplicaStatus::Corrupted),
        ("r3".to_string(), ReplicaStatus::Healthy),
        ("r4".to_string(), ReplicaStatus::Slow),
    ];
    assert_eq!(
        plan_replication(&active, "a", &replicas, 1700000000),
        ReplicationDecision::NewTask {
            task_id: "repl_a_1700000000".to_string(),
            source_replicas: vec!["r1".to_string(), "r3".to_string()],
        }
    );
    match plan_replication(&Vec::new(), "c", &Vec::new(), -5) {
        ReplicationDecision::NewTask { task_id, source_replicas } => {
            assert_eq!(task_id, "repl_c_-5");
            assert!(source_replicas.is_empty());
        }
        other => panic!("unexpected decision {:?}", other),
    }
}

#[test]
fn signed_numbers_format_like_display() {
    for n in [0i64, 7, -7, 1234567890, i64::MAX, i64::MIN] {
        assert_eq!(format_signed(n), n.to_string());
    }
}

#[test]
fn clock_readings_become_signed_milliseconds() {
    assert_eq!(millis_from_offset(Ok((1_700_000_000, 250))), 1_700_000_000_250);
    assert_eq!(millis_from_offset(Ok((0, 0))), 0);
    assert_eq!(millis_from_offset(Err((2, 5))), -2005);
    assert_eq!(millis_from_offset(Ok((u64::MAX, 999))), i64::MAX);
    assert_eq!(millis_from_offset(Err((u64::MAX, 999))), i64::MIN);
    assert_eq!(millis_from_offset(Err((9_223_372_036_854_775, 808))), i64::MIN);
    assert_eq!(millis_from_offset(Err((9_223_372_036_854_775, 807))), -9_223_372_036_854_775_807);
}
