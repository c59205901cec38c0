use zephyrfs::verification::integrity_checks::{
    compute_distribution_fingerprint, compute_merkle_root, compute_polynomial_coefficients, compute_sha256,
    compute_sha512, compute_verification_checksums, generate_completeness_proof, generate_parity,
    merkle_piece_count, temporal_checks, verify_hashes, verify_mathematical_proof,
    generate_proof, verify_integrity, IntegrityConfig,
};
use zephyrfs::verification::{is_cache_expired, needs_reverification};

fn hex(b: &[u8]) -> String {
    b.iter().map(|x| format!("{:02x}", x)).collect()
}

#[test]
fn completeness_parts_have_known_values() {
    let s = b"Test content";
    assert_eq!(compute_polynomial_coefficients(s), vec![1800, 3030, 5005, 6960, 160, 594, 777, 880]);
    assert_eq!(generate_parity(s), vec![84, 101, 115, 116, 32, 99, 111, 110, 116, 101, 110, 116, 0, 0, 0, 0]);
    assert_eq!(compute_verification_checksums(s), vec![2603070, 3489577, 3416107, 3118197]);
    assert_eq!(
        hex(&compute_distribution_fingerprint(s)),
        "49fc53d3a1c3be1173a6a30830eb8212252afd47159f8e962628c3106a1f06a1"
    );
    assert_eq!(compute_polynomial_coefficients(b""), vec![0; 8]);
    assert_eq!(compute_verification_checksums(b""), vec![0; 4]);
    assert_eq!(
        hex(&compute_distribution_fingerprint(b"")),
        "5f70bf18a086007016e948b04aed3b82103a36bea41755b6cddfaf10ace3c6ef"
    );
}

#[test]
fn merkle_roots() {
    assert_eq!(hex(&compute_merkle_root(b"Test content")), "9d9595c5d94fb65b824f56e9999527dba9542481580d69feb89056aabaa0aa87");
    assert_eq!(hex(&compute_merkle_root(b"")), "2e1cfa82b035c26cbbbdae632cea070514eb8b773f616aaeaf668e2f0be8f10d");
    let big: Vec<u8> = (0..10000u32).map(|i| (i * 7 % 256) as u8).collect();
    assert_eq!(hex(&compute_merkle_root(&big)), "af6414e73723e99497115e917da0df0fcd7b1e8373f15a0154b712b84083b8e9");
    assert_eq!(merkle_piece_count(10000), 3);
    assert_eq!(merkle_piece_count(8192), 2);
    assert_eq!(merkle_piece_count(0), 0);
}

#[test]
fn test_merkle_tree_verification() {
    let test_content = b"Test content for Merkle tree verification with multiple chunks";
    let merkle_root1 = compute_merkle_root(test_content);
    let merkle_root2 = compute_merkle_root(test_content);
    assert_eq!(merkle_root1, merkle_root2);
    let different_content = b"Different test content for Merkle tree verification";
    let different_root = compute_merkle_root(different_content);
    assert_ne!(merkle_root1, different_root);
}

#[test]
fn ring_digests() {
    assert_eq!(hex(&compute_sha256(b"abc")), "ba7816bf8f01cfea414140de5dae2223b00361a396177a9cb410ff61f20015ad");
    assert_eq!(
        hex(&compute_sha512(b"abc")),
        "ddaf35a193617abacc417349ae20413112e6fa4e89a97ea20a9eeee64b55d39a2192992a274fc1a836ba3c23a3feebbd454d4423643ce80e2a9ac94fa54ca49f"
    );
}

#[test]
fn generated_proof_verifies_and_tampering_fails() {
    let original = b"Original test content";
    let tampered = b"Tampered test content";
    let proof = generate_completeness_proof(original);
    let ok = verify_mathematical_proof(original, &proof);
    assert_eq!(ok.passed(), 4);
    let bad = verify_mathematical_proof(tampered, &proof);
    assert!(bad.passed() < 4);
    assert!(!bad.parity_verification);
    let h = verify_hashes(original, &compute_sha256(original), &compute_sha512(original), &compute_merkle_root(original));
    assert!(h.sha256_match && h.sha512_match && h.merkle_verification);
    let h = verify_hashes(tampered, &compute_sha256(original), &compute_sha512(original), &compute_merkle_root(original));
    assert!(!h.sha256_match && !h.sha512_match && !h.merkle_verification);
}

#[test]
fn temporal_and_cache_rules() {
    assert_eq!(temporal_checks(1000, 500, 600), (true, true));
    assert_eq!(temporal_checks(1000, 300, 600), (false, true));
    assert_eq!(temporal_checks(1000, 1300, 600), (true, true));
    assert_eq!(temporal_checks(1000, 1301, 600), (true, false));
    assert_eq!(temporal_checks(u64::MAX, u64::MAX, 0), (true, true));
    assert!(needs_reverification(true, 86400, 100000, 10000));
    assert!(!needs_reverification(true, 86400, 100000, 20000));
    assert!(!needs_reverification(false, 0, 5, 1));
    assert!(is_cache_expired(7200, 3600, 3600));
    assert!(!is_cache_expired(7199, 3600, 3600));
}

const NOW: u64 = 1_700_000_000;
const MAX_PROOF_AGE: u64 = 3600;

fn confidence(points: u32, checks: u32) -> f64 {
    if checks == 0 { 0.0 } else { points as f64 / (100.0 * checks as f64) }
}

#[test]
fn test_integrity_proof_generation() {
    let test_content = b"Test content for integrity verification";

    let proof = generate_proof(test_content, NOW);

    assert_eq!(proof.content_size, test_content.len() as u64);
    assert!(!proof.content_hash_sha256.is_empty());
    assert!(!proof.content_hash_sha512.is_empty());
    assert!(!proof.merkle_root.is_empty());
}

#[test]
fn test_integrity_verification_success() {
    let test_content = b"Test content for successful verification";

    let proof = generate_proof(test_content, NOW);
    let result = verify_integrity(test_content, &proof, NOW, &IntegrityConfig::standard());
    let confidence = confidence(result.confidence_points, result.checks_run);

    assert!(result.is_valid);
    assert!(confidence >= 0.95);
}

#[test]
fn test_integrity_verification_failure() {
    let original_content = b"Original test content";
    let tampered_content = b"Tampered test content";

    let proof = generate_proof(original_content, NOW);
    let result = verify_integrity(tampered_content, &proof, NOW, &IntegrityConfig::standard());
    let confidence = confidence(result.confidence_points, result.checks_run);

    assert!(!result.is_valid);
    assert!(confidence < 0.95);
}

#[test]
fn proof_records_the_content_and_its_evidence() {
    let content = b"Test content";
    let proof = generate_proof(content, NOW);
    assert_eq!(proof.timestamp, NOW);
    assert_eq!(proof.content_hash_sha256, compute_sha256(content));
    assert_eq!(proof.content_hash_sha512, compute_sha512(content));
    assert_eq!(proof.merkle_root, compute_merkle_root(content));
    assert_eq!(proof.completeness_proof, generate_completeness_proof(content));
    assert_eq!(proof.metadata.chunk_count, 1);
    assert_eq!(proof.metadata.content_classification, "encrypted_data");
    // Version 4, RFC 4122 variant.
    assert_eq!((proof.proof_id >> 76) & 0xf, 4);
    assert_eq!((proof.proof_id >> 62) & 0x3, 2);
    assert_eq!(generate_proof(b"", NOW).metadata.chunk_count, 0);
}

#[test]
fn stale_or_future_proofs_lose_confidence() {
    let config = IntegrityConfig::standard();
    assert_eq!(config.max_proof_age, MAX_PROOF_AGE);
    let content = b"Test content";
    let proof = generate_proof(content, NOW);
    let old = verify_integrity(content, &proof, NOW + MAX_PROOF_AGE + 1, &config);
    assert!(!old.is_valid);
    assert_eq!(old.temporal, Some((false, true)));
    assert_eq!((old.confidence_points, old.checks_run), (250, 3));
    let early = verify_integrity(content, &proof, NOW - 301, &config);
    assert!(!early.is_valid);
    assert_eq!(early.temporal, Some((true, false)));
    let tampered = verify_integrity(b"Test kontent", &proof, NOW, &config);
    let h = tampered.hashes.unwrap();
    assert!(!h.sha256_match && !h.sha512_match && !h.merkle_verification);
    assert!(confidence(tampered.confidence_points, tampered.checks_run) < 0.95);
}

#[test]
fn switched_off_checks_do_not_count() {
    let content = b"Test content";
    let proof = generate_proof(content, NOW);
    let only_hashes = IntegrityConfig {
        hash_verification: true,
        proof_verification: false,
        temporal_verification: false,
        max_proof_age: MAX_PROOF_AGE,
        confidence_threshold_hundredths: 95,
    };
    // A stale proof still passes when time is not checked.
    let v = verify_integrity(content, &proof, NOW + 10 * MAX_PROOF_AGE, &only_hashes);
    assert!(v.is_valid);
    assert_eq!((v.confidence_points, v.checks_run), (100, 1));
    assert!(v.completeness.is_none() && v.temporal.is_none());
    let none = IntegrityConfig { hash_verification: false, ..only_hashes };
    let v = verify_integrity(content, &proof, NOW, &none);
    assert!(!v.is_valid);
    assert_eq!((v.confidence_points, v.checks_run), (0, 0));
    let lenient = IntegrityConfig { confidence_threshold_hundredths: 0, ..none };
    assert!(verify_integrity(content, &proof, NOW, &lenient).is_valid);
    // Hashes and completeness checks of tampered content: 0 + 25 * (parts reproduced).
    let both = IntegrityConfig { proof_verification: true, confidence_threshold_hundredths: 50, ..only_hashes };
    let v = verify_integrity(b"Test kontent", &proof, NOW, &both);
    assert!(!v.is_valid);
    assert_eq!(v.checks_run, 2);
}
