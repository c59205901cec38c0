use zephyrfs::redundancy::network_health_monitor::{alert_severity, health_alert_kinds, AlertSeverity, AlertType};

#[test]
fn quiet_network_raises_no_alert() {
    let (critical, warnings) = health_alert_kinds(2, 10, false, 1000);
    assert!(critical.is_empty());
    assert!(warnings.is_empty());
}

#[test]
fn more_than_a_quarter_offline_is_critical() {
    let (critical, warnings) = health_alert_kinds(3, 10, false, 200);
    assert_eq!(critical, vec![AlertType::NodeFailures]);
    assert!(warnings.is_empty());
    // 10 / 4 rounds down to 2, so exactly 2 offline of 10 is still quiet.
    assert!(health_alert_kinds(2, 10, false, 200).0.is_empty());
    // With no nodes at all, a single offline report is already over the limit.
    assert_eq!(health_alert_kinds(1, 0, false, 0).0, vec![AlertType::NodeFailures]);
}

#[test]
fn full_storage_and_slow_network_are_warnings_in_order() {
    let (critical, warnings) = health_alert_kinds(0, 10, true, 1001);
    assert!(critical.is_empty());
    assert_eq!(warnings, vec![AlertType::StorageCapacity, AlertType::PerformanceDegradation]);
    assert_eq!(health_alert_kinds(0, 10, false, 1001).1, vec![AlertType::PerformanceDegradation]);
    assert_eq!(health_alert_kinds(0, 10, true, 5).1, vec![AlertType::StorageCapacity]);
}

#[test]
fn raised_alerts_have_their_severity() {
    assert_eq!(alert_severity(AlertType::NodeFailures), Some(AlertSeverity::Critical));
    assert_eq!(alert_severity(AlertType::StorageCapacity), Some(AlertSeverity::High));
    assert_eq!(alert_severity(AlertType::PerformanceDegradation), Some(AlertSeverity::Medium));
    assert_eq!(alert_severity(AlertType::SecurityThreat), None);
}
