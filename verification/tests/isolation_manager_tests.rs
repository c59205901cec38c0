use zephyrfs::security::malicious_detection::QuarantineManager;
use zephyrfs::security::chunk_isolation::{
    format_list, ChunkAccessType, ChunkSecurityManager, EncryptedData, IsolationLevel, SecurityError,
    SecurityEventType, ThreatLevel,
};

fn sample_data() -> EncryptedData {
    EncryptedData { segment_index: 0, ciphertext: vec![1, 2, 3, 4, 5], nonce: [0; 12], aad: vec![], key_path: vec![0, 1, 2] }
}

#[test]
fn test_chunk_isolation() {
    let mut manager = ChunkSecurityManager::new();
    let encrypted_data = sample_data();
    let chunk = manager.create_isolated_chunk(encrypted_data, IsolationLevel::Standard).unwrap();
    assert_eq!(chunk.isolation_level, IsolationLevel::Standard);
    assert!(chunk.access_flags.readable);
    assert!(!chunk.access_flags.writable);
}

#[test]
fn test_security_upgrade() {
    let mut manager = ChunkSecurityManager::new();
    let encrypted_data = sample_data();
    let chunk = manager.create_isolated_chunk(encrypted_data, IsolationLevel::Standard).unwrap();
    manager.upgrade_security(chunk.chunk_id, IsolationLevel::Enhanced, "Test upgrade".to_string()).unwrap();
    let access_allowed = manager.access_chunk(chunk.chunk_id, ChunkAccessType::Read).unwrap();
    assert!(access_allowed);
}

#[test]
fn isolation_is_logged_with_its_level() {
    let mut manager = ChunkSecurityManager::new();
    let chunk = manager.create_isolated_chunk(sample_data(), IsolationLevel::Enhanced).unwrap();
    let events = manager.get_security_events(Some(chunk.chunk_id));
    assert_eq!(events.len(), 1);
    assert_eq!(events[0].description, "Chunk isolated with level: Enhanced");
    assert!(matches!(events[0].event_type, SecurityEventType::ChunkIsolated));
    assert_eq!(events[0].timestamp, chunk.isolated_at);
    assert!(chunk.access_flags.auth_required && chunk.access_flags.monitored);
}

#[test]
fn fingerprint_and_integrity_hash_are_sha256_of_their_inputs() {
    let manager = ChunkSecurityManager::new();
    let data = sample_data();
    let fp = manager.generate_key_fingerprint(&data);
    let ih = manager.calculate_integrity_hash(&data);
    // nonce (12 zero bytes) + no aad + key path 0, 1, 2 as little-endian u32s
    let mut context = vec![0u8; 12];
    for k in [0u32, 1, 2] {
        context.extend_from_slice(&k.to_le_bytes());
    }
    assert_eq!(fp, hex::encode(ring::digest::digest(&ring::digest::SHA256, &context).as_ref()));
    let mut input = vec![1u8, 2, 3, 4, 5];
    input.extend_from_slice(&[0u8; 12]);
    assert_eq!(ih, hex::encode(ring::digest::digest(&ring::digest::SHA256, &input).as_ref()));
    assert_eq!(fp.len(), 64);
}

#[test]
fn downgrade_is_ignored_and_quarantine_denies_access() {
    let mut manager = ChunkSecurityManager::new();
    let chunk = manager.create_isolated_chunk(sample_data(), IsolationLevel::Standard).unwrap();
    let id = chunk.chunk_id;
    manager.upgrade_security(id, IsolationLevel::Quarantined, "suspicious".to_string()).unwrap();
    manager.upgrade_security(id, IsolationLevel::Standard, "undo".to_string()).unwrap();
    let stored = manager.get_chunk(id).unwrap();
    assert_eq!(stored.isolation_level, IsolationLevel::Quarantined);
    assert_eq!(stored.quarantine_reason.as_deref(), Some("suspicious"));
    assert!(!manager.access_chunk(id, ChunkAccessType::Read).unwrap());
    assert!(!manager.access_chunk(id, ChunkAccessType::Transmit).unwrap());
    let events = manager.get_security_events(Some(id));
    assert_eq!(events.len(), 4);
    assert_eq!(events[1].description, "Security upgraded from Standard to Quarantined: suspicious");
    assert_eq!(events[2].description, "Access denied for type: Read");
    assert_eq!(events[3].description, "Access denied for type: Transmit");
}

#[test]
fn unknown_chunk_is_reported() {
    let mut manager = ChunkSecurityManager::new();
    assert_eq!(manager.access_chunk(7, ChunkAccessType::Read), Err(SecurityError::ChunkNotFound));
    assert_eq!(manager.upgrade_security(7, IsolationLevel::Enhanced, String::new()), Err(SecurityError::ChunkNotFound));
    assert!(matches!(manager.analyze_chunk_security(7, false), Err(SecurityError::ChunkNotFound)));
    assert!(manager.get_chunk(7).is_none());
}

#[test]
fn analysis_quarantines_low_entropy_chunks() {
    let mut manager = ChunkSecurityManager::new();
    let chunk = manager.create_isolated_chunk(sample_data(), IsolationLevel::Standard).unwrap();
    let analysis = manager.analyze_chunk_security(chunk.chunk_id, true).unwrap();
    assert_eq!(analysis.threat_level, ThreatLevel::High);
    assert_eq!(analysis.suspicious_indicators, vec!["Low entropy in encrypted data".to_string()]);
    assert_eq!(analysis.recommendations, vec!["Quarantine immediately".to_string()]);
    let stored = manager.get_chunk(chunk.chunk_id).unwrap();
    assert_eq!(stored.isolation_level, IsolationLevel::Quarantined);
    assert_eq!(
        stored.quarantine_reason.as_deref(),
        Some("High threat detected: [\"Low entropy in encrypted data\"]")
    );
}

#[test]
fn analysis_of_repeated_blocks_enhances_isolation() {
    let mut manager = ChunkSecurityManager::new();
    let data = EncryptedData { segment_index: 1, ciphertext: vec![9u8; 64], nonce: [1; 12], aad: vec![2], key_path: vec![] };
    let chunk = manager.create_isolated_chunk(data, IsolationLevel::Standard).unwrap();
    let analysis = manager.analyze_chunk_security(chunk.chunk_id, false).unwrap();
    assert_eq!(analysis.threat_level, ThreatLevel::Medium);
    let stored = manager.get_chunk(chunk.chunk_id).unwrap();
    assert_eq!(stored.isolation_level, IsolationLevel::Enhanced);
    assert!(stored.quarantine_reason.is_none());
    let clean = manager.create_isolated_chunk(sample_data(), IsolationLevel::Standard).unwrap();
    let analysis = manager.analyze_chunk_security(clean.chunk_id, false).unwrap();
    assert_eq!(analysis.threat_level, ThreatLevel::Low);
    assert!(analysis.suspicious_indicators.is_empty());
    assert_eq!(manager.get_chunk(clean.chunk_id).unwrap().isolation_level, IsolationLevel::Standard);
}

#[test]
fn event_log_drops_oldest_thousand_past_ten_thousand() {
    let mut manager = ChunkSecurityManager::new();
    let chunk = manager.create_isolated_chunk(sample_data(), IsolationLevel::Quarantined).unwrap();
    for _ in 0..10000 {
        assert!(!manager.access_chunk(chunk.chunk_id, ChunkAccessType::Write).unwrap());
    }
    // one isolation event and 10000 denials: 10001 > 10000, so the oldest 1000 went
    assert_eq!(manager.get_security_events(None).len(), 9001);
    assert_eq!(manager.get_security_events(None)[0].description, "Access denied for type: Write");
}

#[test]
fn lists_are_written_as_quoted_items() {
    assert_eq!(format_list(&vec![]), "[]");
    assert_eq!(format_list(&vec!["a".to_string(), "b c".to_string()]), "[\"a\", \"b c\"]");
    assert_eq!(format_list(&vec!["x".to_string()]), format!("{:?}", vec!["x"]));
}

#[test]
fn quarantine_manager_records_terms_and_counts() {
    let mut qm = QuarantineManager::new();
    qm.quarantine_chunk(1, "bad pattern".to_string(), ThreatLevel::High, true);
    qm.quarantine_chunk(2, "operator".to_string(), ThreatLevel::Critical, false);
    qm.quarantine_chunk(1, "again".to_string(), ThreatLevel::Medium, true);
    let first = qm.quarantined(1).unwrap();
    assert_eq!(first.quarantine_reason, "again");
    assert_eq!(first.quarantine_duration_secs, Some(3600));
    assert!(!first.review_required);
    let second = qm.quarantined(2).unwrap();
    assert_eq!(second.quarantine_duration_secs, None);
    assert!(second.review_required);
    assert!(!second.automated);
    assert!(qm.quarantined(3).is_none());
    let stats = qm.stats();
    assert_eq!(stats.total_quarantined, 3);
    assert_eq!(stats.currently_quarantined, 3);
    assert_eq!(stats.automatic_quarantines, 2);
    assert_eq!(stats.manual_quarantines, 1);
}
