use zephyrfs::security::chunk_isolation::{
    assess_chunk, check_against_quarantine_rules, contains_pattern, default_quarantine_rules,
    detect_pattern_repetition, response_level, ChunkAccessFlags, ChunkAccessType, ChunkSecurityState,
    IsolationLevel, QuarantineAction, QuarantineRule, ThreatLevel,
};
use zephyrfs::security::malicious_detection::{
    default_policies, detect_repetitive_patterns, quarantine_recommendation, quarantine_terms,
    AnalysisPriority, AnalysisQueue, QuarantineStats, MAX_ANALYSIS_QUEUE_SIZE,
};
use zephyrfs::security::{
    calculate_security_clearance, decide_chunk_access, determine_isolation_level, get_access_conditions,
    quarantine_decision, AccessCondition, AccessDecision, QuarantineDecision, SecurityClearance, SecurityConfig,
};

#[test]
fn isolated_chunk_flags_follow_level() {
    let s = ChunkSecurityState::isolate(IsolationLevel::Standard);
    assert!(s.access_flags.readable);
    assert!(!s.access_flags.writable);
    assert!(s.access_flags.transmittable);
    let e = ChunkAccessFlags::for_level(IsolationLevel::Enhanced);
    assert!(e.readable && e.auth_required && e.monitored);
    let q = ChunkAccessFlags::for_level(IsolationLevel::Quarantined);
    assert!(!q.readable && !q.transmittable && q.auth_required);
    assert_eq!(ChunkAccessFlags::default(), ChunkAccessFlags::for_level(IsolationLevel::Standard));
}

#[test]
fn security_upgrade_keeps_read_access() {
    let mut s = ChunkSecurityState::isolate(IsolationLevel::Standard);
    assert!(s.upgrade(IsolationLevel::Enhanced, "Test upgrade".to_string()));
    assert!(s.access(ChunkAccessType::Read));
    assert!(s.access_flags.monitored);
}

#[test]
fn quarantine_closes_access_and_cannot_be_undone() {
    let mut s = ChunkSecurityState::isolate(IsolationLevel::Enhanced);
    assert!(s.upgrade(IsolationLevel::Quarantined, "bad".to_string()));
    assert_eq!(s.quarantine_reason, Some("bad".to_string()));
    assert!(!s.access(ChunkAccessType::Read));
    assert!(!s.access(ChunkAccessType::Transmit));
    assert!(!s.access(ChunkAccessType::Write));
    assert!(!s.upgrade(IsolationLevel::Standard, "downgrade".to_string()));
    assert_eq!(s.isolation_level, IsolationLevel::Quarantined);
    assert!(!s.access(ChunkAccessType::Read));
}

#[test]
fn threat_max_takes_the_more_severe() {
    assert_eq!(ThreatLevel::Low.max(ThreatLevel::High), ThreatLevel::High);
    assert_eq!(ThreatLevel::Critical.max(ThreatLevel::Medium), ThreatLevel::Critical);
    assert_eq!(ThreatLevel::Medium.max(ThreatLevel::Medium), ThreatLevel::Medium);
    assert!(ThreatLevel::High.at_least(ThreatLevel::Medium));
    assert!(!ThreatLevel::Low.at_least(ThreatLevel::Medium));
}

#[test]
fn assessment_order_of_checks() {
    let a = assess_chunk(10, true, true, false);
    // Repetition, checked after entropy, sets the level back to medium.
    assert_eq!(a.threat_level, ThreatLevel::Medium);
    assert_eq!(a.suspicious_indicators.len(), 2);
    assert_eq!(a.recommendations, vec!["Quarantine immediately".to_string()]);
    assert_eq!(assess_chunk(200 * 1024 * 1024, false, false, false).threat_level, ThreatLevel::Medium);
    assert_eq!(assess_chunk(1, false, false, true).threat_level, ThreatLevel::Critical);
    assert_eq!(assess_chunk(1, false, false, false).threat_level, ThreatLevel::Low);
    assert_eq!(response_level(ThreatLevel::Low), None);
    assert_eq!(response_level(ThreatLevel::Medium), Some(IsolationLevel::Enhanced));
    assert_eq!(response_level(ThreatLevel::Critical), Some(IsolationLevel::Quarantined));
}

#[test]
fn repetition_detection() {
    let mut data = vec![0u8; 64];
    assert!(detect_pattern_repetition(&data)); // four equal blocks
    data[0] = 1;
    assert!(!detect_pattern_repetition(&data)); // only three remain equal
    assert!(!detect_pattern_repetition(&[7u8; 31]));
    let distinct: Vec<u8> = (0..=255u8).collect();
    assert!(!detect_pattern_repetition(&distinct));
    assert!(!detect_repetitive_patterns(&vec![0u8; 63]));
    assert!(detect_repetitive_patterns(&vec![0u8; 64]));
    // 1600 bytes: 100 blocks, threshold 5; a block repeated five times is not enough.
    let mut d: Vec<u8> = (0..1600u32).map(|i| (i / 16) as u8).collect();
    for b in 1..5 {
        for t in 0..16 {
            d[16 * b + t] = 0;
        }
    }
    assert!(!detect_repetitive_patterns(&d));
    for t in 0..16 {
        d[16 * 5 + t] = 0;
    }
    assert!(detect_repetitive_patterns(&d));
}

#[test]
fn quarantine_rule_matching() {
    assert!(contains_pattern(b"cde", b"abcdef"));
    assert!(!contains_pattern(b"xyz", b"abcdef"));
    assert!(contains_pattern(b"", b"abc"));
    assert!(!contains_pattern(b"abcd", b"abc"));
    let rules = default_quarantine_rules();
    assert_eq!(rules.len(), 2);
    assert_eq!(rules[0].rule_id, "entropy_check");
    assert_eq!(rules[1].action, QuarantineAction::EnhanceIsolation);
    assert!(!check_against_quarantine_rules(&rules, b"anything"));
    let mut custom = rules.clone();
    custom.push(QuarantineRule {
        rule_id: "bad".to_string(),
        description: "bad bytes".to_string(),
        pattern: vec![0xde, 0xad],
        action: QuarantineAction::Block,
        priority: 1,
        active: false,
    });
    assert!(!check_against_quarantine_rules(&custom, &[1, 0xde, 0xad, 2]));
    custom[2].active = true;
    assert!(check_against_quarantine_rules(&custom, &[1, 0xde, 0xad, 2]));
}

#[test]
fn policy_decisions() {
    let config = SecurityConfig::default();
    let p = config.global_policies;
    assert_eq!(determine_isolation_level(&p, ThreatLevel::Low), IsolationLevel::Standard);
    assert_eq!(determine_isolation_level(&p, ThreatLevel::Medium), IsolationLevel::Enhanced);
    assert_eq!(determine_isolation_level(&p, ThreatLevel::High), IsolationLevel::Quarantined);
    assert_eq!(quarantine_decision(&p, ThreatLevel::Low), QuarantineDecision::Allowed);
    assert_eq!(quarantine_decision(&p, ThreatLevel::Medium), QuarantineDecision::Quarantined);
    assert_eq!(calculate_security_clearance(ThreatLevel::Low, IsolationLevel::Standard), SecurityClearance::Internal);
    assert_eq!(calculate_security_clearance(ThreatLevel::Low, IsolationLevel::Enhanced), SecurityClearance::Restricted);
    assert_eq!(calculate_security_clearance(ThreatLevel::Low, IsolationLevel::Quarantined), SecurityClearance::Internal);
    assert_eq!(calculate_security_clearance(ThreatLevel::High, IsolationLevel::Standard), SecurityClearance::Confidential);
    assert_eq!(calculate_security_clearance(ThreatLevel::Critical, IsolationLevel::Enhanced), SecurityClearance::TopSecret);
}

#[test]
fn access_decisions() {
    let open = ChunkAccessFlags::for_level(IsolationLevel::Standard);
    let read = ChunkAccessFlags::default();
    match decide_chunk_access(false, &open, &read) {
        AccessDecision::Granted { conditions } => {
            assert_eq!(conditions, vec![AccessCondition::AuditLogging, AccessCondition::RateLimit])
        }
        _ => panic!("read of a standard chunk refused"),
    }
    let write = ChunkAccessFlags { writable: true, ..ChunkAccessFlags::default() };
    match decide_chunk_access(false, &open, &write) {
        AccessDecision::Denied { reason } => assert_eq!(reason, "Insufficient security clearance"),
        _ => panic!("write granted"),
    }
    match decide_chunk_access(true, &open, &read) {
        AccessDecision::Denied { reason } => assert_eq!(reason, "Chunk is quarantined"),
        _ => panic!("quarantined chunk readable"),
    }
    assert_eq!(get_access_conditions().len(), 2);
}

#[test]
fn analysis_queue_orders_by_priority() {
    let mut q: AnalysisQueue<u32> = AnalysisQueue::new();
    q.submit(AnalysisPriority::Normal, 1);
    q.submit(AnalysisPriority::Critical, 2);
    q.submit(AnalysisPriority::Normal, 3);
    q.submit(AnalysisPriority::Low, 4);
    q.submit(AnalysisPriority::High, 5);
    assert_eq!(q.len(), 5);
    let order: Vec<u32> = (0..q.len()).map(|i| q.entry(i).1).collect();
    assert_eq!(order, vec![2, 5, 1, 3, 4]);
    assert_eq!(q.entry(0).0, AnalysisPriority::Critical);
}

#[test]
fn full_analysis_queue_drops_low_priority() {
    let mut q: AnalysisQueue<usize> = AnalysisQueue::new();
    for i in 0..MAX_ANALYSIS_QUEUE_SIZE {
        let p = if i % 2 == 0 { AnalysisPriority::Low } else { AnalysisPriority::Normal };
        q.submit(p, i);
    }
    assert_eq!(q.len(), MAX_ANALYSIS_QUEUE_SIZE);
    q.submit(AnalysisPriority::Low, 99999);
    assert_eq!(q.len(), MAX_ANALYSIS_QUEUE_SIZE / 2 + 1);
    assert_eq!(q.entry(q.len() - 1).1, 99999);
    assert_eq!(q.entry(0).0, AnalysisPriority::Normal);
}

#[test]
fn quarantine_terms_and_stats() {
    assert_eq!(quarantine_terms(ThreatLevel::Low), (Some(1800), false));
    assert_eq!(quarantine_terms(ThreatLevel::Medium), (Some(3600), false));
    assert_eq!(quarantine_terms(ThreatLevel::High), (Some(86400), false));
    assert_eq!(quarantine_terms(ThreatLevel::Critical), (None, true));
    let mut s = QuarantineStats::default();
    s.record_quarantine(true);
    s.record_quarantine(false);
    assert_eq!(s.total_quarantined, 2);
    assert_eq!(s.currently_quarantined, 2);
    assert_eq!(s.automatic_quarantines, 1);
    assert_eq!(s.manual_quarantines, 1);
    let policies = default_policies();
    assert_eq!(policies[0].policy_id, "high_threat_auto");
    assert_eq!(policies[1].quarantine_duration_secs, None);
    assert!(policies[1].require_manual_review);
    let r = quarantine_recommendation(ThreatLevel::Medium, false);
    assert!(!r.should_quarantine);
    assert_eq!(r.duration_secs, Some(3600));
    let r = quarantine_recommendation(ThreatLevel::Critical, false);
    assert!(r.should_quarantine);
    assert_eq!(r.isolation_level, IsolationLevel::Quarantined);
    assert_eq!(r.duration_secs, None);
}
