use zephyrfs::storage::chunk_store::{
    calculate_checksum, new_chunk_metadata, plan_store, release_reference, verify_chunk_integrity, StorageStats,
    StoreAction,
};
use zephyrfs::storage::encrypted_chunk_store::{
    add_encrypted_reference, calculate_encrypted_checksum, encrypted_content_hash, new_encrypted_chunk_metadata,
    verify_encrypted_chunk, EncryptedStorageStats,
};
use zephyrfs::storage::enhanced_storage_manager::{
    encrypted_storage_result, format_segment_chunk_id, plaintext_storage_result,
};
use zephyrfs::storage::file_chunker::{ChunkerError, FileChunker};
use zephyrfs::storage::metadata_store::{
    calculate_metadata_checksum, le_bytes_of, seal_metadata, verify_metadata_integrity, FileMetadata,
};
use zephyrfs::storage::storage_manager::{detect_mime_type, reassemble_file, StorageError};

const ABC_SHA256: &str = "ba7816bf8f01cfea414140de5dae2223b00361a396177a9cb410ff61f20015ad";
const EMPTY_BLAKE3: &str = "af1349b9f5f9a1a6a0404dea36dcc9499bcb25c9adc112b7cc9a93cae41f3262";

#[test]
fn chunk_checksum_is_blake3_of_data_and_hash() {
    assert_eq!(calculate_checksum(&[], ""), EMPTY_BLAKE3);
    // The checksum covers the data followed by the hash text.
    assert_eq!(calculate_checksum(b"a", "b"), calculate_checksum(b"ab", ""));
    assert_ne!(calculate_checksum(b"a", "b"), calculate_checksum(b"a", "c"));
    assert_eq!(calculate_checksum(b"a", "b").len(), 64);
}

#[test]
fn stored_chunk_verifies_and_tampering_is_caught() {
    let m = new_chunk_metadata(b"abc", 42);
    assert_eq!(m.hash, ABC_SHA256);
    assert_eq!(m.size, 3);
    assert_eq!(m.ref_count, 1);
    assert_eq!(m.stored_at, 42);
    assert!(verify_chunk_integrity(b"abc", &m));
    assert!(!verify_chunk_integrity(b"abd", &m));
    assert!(!verify_chunk_integrity(b"ab", &m));
    let mut bad = m.clone();
    bad.checksum = "00".to_string();
    assert!(!verify_chunk_integrity(b"abc", &bad));
}

#[test]
fn chunk_reference_counting() {
    let (hash, action) = plan_store(None, b"Reference counting test data", 1);
    let first = match action {
        StoreAction::Insert(m) => m,
        _ => panic!("new chunk not inserted"),
    };
    assert_eq!(hash, first.hash);
    let (_, again) = plan_store(Some(first.clone()), b"Reference counting test data", 2);
    let second = match again {
        StoreAction::AddReference(m) => m,
        _ => panic!("stored chunk inserted twice"),
    };
    assert_eq!(second.ref_count, 2);
    assert_eq!(second.stored_at, 1);
    let (after_one, deleted) = release_reference(second);
    assert!(!deleted);
    assert_eq!(after_one.ref_count, 1);
    let (after_two, deleted) = release_reference(after_one);
    assert!(deleted);
    assert_eq!(after_two.ref_count, 0);
    let (floor, deleted) = release_reference(after_two);
    assert!(deleted);
    assert_eq!(floor.ref_count, 0);
}

#[test]
fn storage_stats_counting() {
    let mut s = StorageStats::default();
    s.record_insert(true, 100);
    s.record_insert(true, 50);
    assert_eq!((s.total_chunks, s.total_size), (2, 150));
    s.record_insert(false, 50);
    assert_eq!((s.total_chunks, s.total_size), (2, 150));
    s.record_delete(30);
    assert_eq!((s.total_chunks, s.total_size), (1, 120));
    s.record_delete(30);
    assert_eq!((s.total_chunks, s.total_size), (0, 90));
    s.record_delete(500);
    assert_eq!((s.total_chunks, s.total_size), (0, 0));
    s.record_cache_hit();
    s.record_cache_miss();
    s.record_cache_miss();
    assert_eq!((s.cache_hits, s.cache_misses), (1, 2));
}

fn record() -> FileMetadata {
    FileMetadata {
        name: "notes.txt".to_string(),
        size: 3,
        mime_type: Some("text/plain".to_string()),
        file_hash: ABC_SHA256.to_string(),
        chunk_ids: vec!["chunk_ba7816bf8f01cfea".to_string()],
        created_at: 10,
        modified_at: 10,
        permissions: 0o644,
        checksum: String::new(),
    }
}

#[test]
fn sealed_metadata_verifies() {
    assert_eq!(le_bytes_of(0x0102030405060708, 8), vec![8, 7, 6, 5, 4, 3, 2, 1]);
    assert_eq!(le_bytes_of(0x1ff, 4), vec![0xff, 1, 0, 0]);
    let sealed = seal_metadata(record(), 99);
    assert_eq!(sealed.modified_at, 99);
    assert_eq!(sealed.checksum.len(), 64);
    assert!(verify_metadata_integrity(&sealed));
    let mut renamed = sealed.clone();
    renamed.name = "other.txt".to_string();
    assert!(!verify_metadata_integrity(&renamed));
    let mut touched = sealed.clone();
    touched.modified_at = 12345;
    assert!(verify_metadata_integrity(&touched));
    let mut more = sealed.clone();
    more.chunk_ids.push("x".to_string());
    assert!(!verify_metadata_integrity(&more));
    assert_eq!(calculate_metadata_checksum(&record()), sealed.checksum);
}

#[test]
fn encrypted_chunk_records() {
    let nonce = [7u8; 12];
    let hash = encrypted_content_hash(b"cipher", &nonce, b"aad");
    assert_eq!(hash.len(), 64);
    let m = new_encrypted_chunk_metadata(b"cipher", nonce, b"aad", &[1, 2], 5);
    assert_eq!(m.encrypted_hash, hash);
    assert_eq!(m.encrypted_size, 6);
    assert_eq!(m.ref_count, 1);
    assert_eq!(m.key_path, vec![1, 2]);
    assert_eq!(m.checksum, calculate_encrypted_checksum(b"cipher", &hash));
    assert!(verify_encrypted_chunk(b"cipher", &hash, &m));
    assert!(!verify_encrypted_chunk(b"cipheR", &hash, &m));
    let again = add_encrypted_reference(m);
    assert_eq!(again.ref_count, 2);
    let mut stats = EncryptedStorageStats::default();
    stats.record_new_chunk(6);
    stats.record_cache_hit();
    assert_eq!((stats.total_encrypted_chunks, stats.total_encrypted_size, stats.cache_hits), (1, 6, 1));
}

#[test]
fn storage_results_and_segment_ids() {
    let r = plaintext_storage_result("h".to_string());
    assert!(!r.is_encrypted);
    assert_eq!(r.chunk_count, 1);
    let e = encrypted_storage_result("cid".to_string(), 3, "cap".to_string());
    assert_eq!(e.file_hash, "cid");
    assert_eq!(e.content_id, Some("cid".to_string()));
    assert_eq!(e.chunk_count, 3);
    assert_eq!(format_segment_chunk_id("file", 12), "file:12");
    assert_eq!(format_segment_chunk_id("f", 0), "f:0");
}

#[test]
fn storage_manager_test_mime_type_detection() {
    assert_eq!(detect_mime_type(&[0xFF, 0xD8, 0xFF, 0xE0], "test.jpg"), Some("image/jpeg".to_string()));
    assert_eq!(detect_mime_type(b"plain text content", "test.txt"), Some("text/plain".to_string()));
}

#[test]
fn stored_mime_prefers_signature() {
    assert_eq!(detect_mime_type(&[0x89, 0x50, 0x4E, 0x47, 1], "a.txt"), Some("image/png".to_string()));
    assert_eq!(detect_mime_type(b"GIF89a", "x"), Some("image/gif".to_string()));
    assert_eq!(detect_mime_type(b"%PDF-1.4", "x.bin"), Some("application/pdf".to_string()));
    assert_eq!(detect_mime_type(b"abc", "song.MP3"), Some("audio/mpeg".to_string()));
    assert_eq!(detect_mime_type(b"abc", "notes.md"), None);
    assert_eq!(detect_mime_type(b"abc", "style.css"), Some("text/css".to_string()));
}

#[test]
fn reassembly_checks_the_file_hash() {
    let chunker = FileChunker::default();
    let mut rec = record();
    rec.chunk_ids = vec!["a".to_string(), "b".to_string()];
    let pieces = vec![b"ab".to_vec(), b"c".to_vec()];
    assert_eq!(reassemble_file(&chunker, "f", &rec, 1024, pieces.clone()).unwrap(), b"abc".to_vec());
    rec.file_hash = "0".repeat(64);
    assert_eq!(
        reassemble_file(&chunker, "f", &rec, 1024, pieces).err(),
        Some(StorageError::Reconstruction(ChunkerError::FileHashMismatch))
    );
}

#[test]
fn stored_chunks_reassemble_to_the_file() {
    let chunker = zephyrfs::storage::file_chunker::FileChunker::new(Some(65536)).unwrap();
    let data: Vec<u8> = (0..200000u32).map(|i| (i % 251) as u8).collect();
    let meta = chunker.chunk_bytes(&data, "f".to_string(), "f.bin".to_string()).unwrap();
    let pieces: Vec<Vec<u8>> = meta
        .chunks
        .iter()
        .map(|c| data[c.offset as usize..(c.offset + c.size) as usize].to_vec())
        .collect();
    let record = zephyrfs::storage::metadata_store::FileMetadata {
        name: "f.bin".to_string(),
        size: data.len() as u64,
        mime_type: None,
        file_hash: meta.file_hash.clone(),
        chunk_ids: meta.chunks.iter().map(|c| c.chunk_id.clone()).collect(),
        created_at: 0,
        modified_at: 0,
        permissions: 0o644,
        checksum: String::new(),
    };
    let back = zephyrfs::storage::storage_manager::reassemble_file(&chunker, "f", &record, 65536, pieces).unwrap();
    assert_eq!(back, data);
}
