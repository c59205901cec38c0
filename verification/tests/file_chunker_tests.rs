use std::io::{Cursor, Read, Seek, SeekFrom};
use zephyrfs::storage::file_chunker::{ChunkerError, FileChunker, FileMetadata, DEFAULT_CHUNK_SIZE};

const EMPTY_SHA256: &str = "e3b0c44298fc1c149afbf4c8996fb92427ae41e4649b934ca495991b7852b855";
const ABC_SHA256: &str = "ba7816bf8f01cfea414140de5dae2223b00361a396177a9cb410ff61f20015ad";

#[test]
fn test_file_chunker_creation() {
    let chunker = FileChunker::default();
    assert_eq!(chunker.chunk_size(), DEFAULT_CHUNK_SIZE);

    let custom_chunker = FileChunker::new(Some(512 * 1024)).unwrap();
    assert_eq!(custom_chunker.chunk_size(), 512 * 1024);

    // Test invalid chunk sizes
    assert!(FileChunker::new(Some(1024)).is_err()); // Too small
    assert!(FileChunker::new(Some(32 * 1024 * 1024)).is_err()); // Too large
}

#[test]
fn test_chunk_empty_data() {
    let chunker = FileChunker::default();
    let metadata = chunker
        .chunk_bytes(&[], "empty-test".to_string(), "empty.txt".to_string())
        .unwrap();

    assert_eq!(metadata.total_size, 0);
    assert!(metadata.chunks.is_empty());
    assert!(!metadata.file_hash.is_empty());
}

#[test]
fn test_chunk_small_data() {
    let chunker = FileChunker::new(Some(128 * 1024)).unwrap(); // 128KB chunks
    let test_data = b"Hello, ZephyrFS! This is a test file for chunking.";

    let metadata = chunker
        .chunk_bytes(test_data, "small-test".to_string(), "test.txt".to_string())
        .unwrap();

    assert_eq!(metadata.total_size, test_data.len() as u64);
    assert_eq!(metadata.chunks.len(), 1); // Should fit in one chunk
    assert_eq!(metadata.chunks[0].size, test_data.len() as u64);
    assert_eq!(metadata.chunks[0].index, 0);
    assert_eq!(metadata.chunks[0].offset, 0);
    assert_eq!(metadata.mime_type, Some("text/plain".to_string()));
}

#[test]
fn test_chunk_large_data() {
    let chunker = FileChunker::new(Some(64 * 1024)).unwrap(); // 64KB chunks for testing
    let test_data = vec![42u8; 200 * 1024]; // 200KB of data

    let metadata = chunker
        .chunk_bytes(&test_data, "large-test".to_string(), "large.bin".to_string())
        .unwrap();

    assert_eq!(metadata.total_size, 200 * 1024);
    assert_eq!(metadata.chunks.len(), 4); // Should split into 4 chunks

    // Verify chunk sizes
    assert_eq!(metadata.chunks[0].size, 64 * 1024);
    assert_eq!(metadata.chunks[1].size, 64 * 1024);
    assert_eq!(metadata.chunks[2].size, 64 * 1024);
    assert_eq!(metadata.chunks[3].size, 8 * 1024); // Remainder

    // Verify offsets
    assert_eq!(metadata.chunks[0].offset, 0);
    assert_eq!(metadata.chunks[1].offset, 64 * 1024);
    assert_eq!(metadata.chunks[2].offset, 128 * 1024);
    assert_eq!(metadata.chunks[3].offset, 192 * 1024);
}

#[test]
fn test_file_reconstruction() {
    let chunker = FileChunker::new(Some(64 * 1024)).unwrap();
    let original_data = b"The quick brown fox jumps over the lazy dog. ".repeat(50);

    // Chunk the data
    let metadata = chunker
        .chunk_bytes(&original_data, "reconstruction-test".to_string(), "test.txt".to_string())
        .unwrap();

    // Extract chunk data (simulating retrieval from storage)
    let mut chunk_data = Vec::new();
    let mut offset = 0;
    for chunk_info in &metadata.chunks {
        let end = offset + chunk_info.size as usize;
        chunk_data.push(original_data[offset..end].to_vec());
        offset = end;
    }

    // Reconstruct the file
    let reconstructed = chunker.reconstruct_file(&metadata, chunk_data).unwrap();

    assert_eq!(reconstructed, original_data);
}

/// Drives a chunking session the way a reader-based caller does.
fn chunk_reader<R: Read + Seek>(
    chunker: &FileChunker,
    mut reader: R,
    file_id: String,
    filename: String,
) -> Result<FileMetadata, ChunkerError> {
    let total_size = reader.seek(SeekFrom::End(0)).unwrap();
    reader.seek(SeekFrom::Start(0)).unwrap();
    let mut session = chunker.start_chunking(file_id, filename, total_size);
    if session.expects_data() {
        let mut buffer = vec![0u8; session.read_size()];
        loop {
            let n = reader.read(&mut buffer).unwrap();
            if n == 0 {
                break;
            }
            session.absorb(&buffer[..n]);
        }
    }
    session.finish_now()
}

#[test]
fn test_chunk_reader() {
    let chunker = FileChunker::new(Some(64 * 1024)).unwrap();
    let test_data = b"This is test data for the reader-based chunking functionality.";
    let mut cursor = Cursor::new(test_data);

    let metadata = chunk_reader(&chunker, &mut cursor, "reader-test".to_string(), "reader.txt".to_string()).unwrap();

    assert_eq!(metadata.total_size, test_data.len() as u64);
    assert_eq!(metadata.chunks.len(), 1); // Small data fits in one chunk
    assert!(!metadata.file_hash.is_empty());
}

#[test]
fn test_hash_consistency() {
    let chunker = FileChunker::default();
    let test_data = b"Consistent hashing test data";

    // Chunk the same data twice
    let metadata1 = chunker
        .chunk_bytes(test_data, "hash-test-1".to_string(), "hash.txt".to_string())
        .unwrap();

    let metadata2 = chunker
        .chunk_bytes(test_data, "hash-test-2".to_string(), "hash.txt".to_string())
        .unwrap();

    // File hashes should be identical
    assert_eq!(metadata1.file_hash, metadata2.file_hash);
    assert_eq!(metadata1.chunks[0].hash, metadata2.chunks[0].hash);
}

#[test]
fn file_chunker_test_mime_type_detection() {
    let chunker = FileChunker::default();

    assert_eq!(chunker.detect_mime_type("test.txt"), Some("text/plain".to_string()));
    assert_eq!(chunker.detect_mime_type("doc.pdf"), Some("application/pdf".to_string()));
    assert_eq!(chunker.detect_mime_type("image.png"), Some("image/png".to_string()));
    assert_eq!(chunker.detect_mime_type("unknown.xyz"), None);
}

#[test]
fn test_chunk_integrity_verification() {
    let chunker = FileChunker::new(Some(64 * 1024)).unwrap();
    let test_data = vec![1u8; 2048]; // 2KB data

    let metadata = chunker
        .chunk_bytes(&test_data, "integrity-test".to_string(), "integrity.bin".to_string())
        .unwrap();

    // With 64KB chunks, 2KB data will be in a single chunk
    let chunk_data = vec![test_data.clone()];

    // Should reconstruct successfully
    let reconstructed = chunker.reconstruct_file(&metadata, chunk_data).unwrap();
    assert_eq!(reconstructed, test_data);

    // Test with corrupted chunk
    let corrupted_chunk_data = vec![
        vec![0u8; 2048], // Corrupted chunk (same size but different data)
    ];

    // Should fail reconstruction
    assert!(chunker.reconstruct_file(&metadata, corrupted_chunk_data).is_err());
}

#[test]
fn chunk_identity_is_sha256_prefix() {
    let chunker = FileChunker::default();
    assert_eq!(chunker.calculate_chunk_hash(b"abc"), ABC_SHA256);
    assert_eq!(chunker.calculate_empty_file_hash(), EMPTY_SHA256);
    let m = chunker.chunk_bytes_at(b"abc", "id".to_string(), "a.bin".to_string(), 7);
    assert_eq!(m.chunks[0].chunk_id, "chunk_ba7816bf8f01cfea");
    assert_eq!(m.chunks[0].hash, ABC_SHA256);
    assert_eq!(m.file_hash, ABC_SHA256);
    assert_eq!(m.created_at, 7);
    assert_eq!(m.mime_type, None);
    let empty = chunker.chunk_bytes_at(&[], "e".to_string(), "e.txt".to_string(), 1);
    assert_eq!(empty.file_hash, EMPTY_SHA256);
    assert_eq!(empty.mime_type, None);
}

#[test]
fn mime_detection_edge_cases() {
    let c = FileChunker::default();
    assert_eq!(c.detect_mime_type("PHOTO.JPEG"), Some("image/jpeg".to_string()));
    assert_eq!(c.detect_mime_type("dir.txt/archive.tar"), Some("application/x-tar".to_string()));
    assert_eq!(c.detect_mime_type("a.tar.gz"), Some("application/gzip".to_string()));
    assert_eq!(c.detect_mime_type(".txt"), None);
    assert_eq!(c.detect_mime_type("noext"), None);
    assert_eq!(c.detect_mime_type("notes.md/"), Some("text/plain".to_string()));
    assert_eq!(c.detect_mime_type("notes.md/."), Some("text/plain".to_string()));
    assert_eq!(c.detect_mime_type("x/.."), None);
    assert_eq!(c.detect_mime_type("page.HTM"), Some("text/html".to_string()));
    assert_eq!(c.detect_mime_type(""), None);
}

#[test]
fn chunker_new_errors() {
    assert_eq!(
        FileChunker::new(Some(65535)).err(),
        Some(ChunkerError::ChunkSizeOutOfBounds { chunk_size: 65535 })
    );
    assert!(FileChunker::new(Some(65536)).is_ok());
    assert!(FileChunker::new(Some(16 * 1024 * 1024)).is_ok());
    assert_eq!(FileChunker::new(None).unwrap().chunk_size(), 1024 * 1024);
}

fn split(data: &[u8], m: &FileMetadata) -> Vec<Vec<u8>> {
    m.chunks
        .iter()
        .map(|c| data[c.offset as usize..(c.offset + c.size) as usize].to_vec())
        .collect()
}

#[test]
fn reconstruction_errors_name_the_first_failed_check() {
    let chunker = FileChunker::new(Some(64 * 1024)).unwrap();
    let data: Vec<u8> = (0..150_000u32).map(|i| (i % 251) as u8).collect();
    let m = chunker.chunk_bytes_at(&data, "f".to_string(), "f.bin".to_string(), 0);
    assert_eq!(m.chunks.len(), 3);
    let pieces = split(&data, &m);
    assert_eq!(chunker.reconstruct_file(&m, pieces.clone()).unwrap(), data);

    assert_eq!(
        chunker.reconstruct_file(&m, pieces[..2].to_vec()).err(),
        Some(ChunkerError::ChunkCountMismatch { provided: 2, expected: 3 })
    );

    let mut reordered = m.clone();
    reordered.chunks[1].index = 7;
    assert_eq!(
        chunker.reconstruct_file(&reordered, pieces.clone()).err(),
        Some(ChunkerError::ChunkOutOfOrder { position: 1 })
    );

    let mut short = pieces.clone();
    short[2].pop();
    assert_eq!(
        chunker.reconstruct_file(&m, short).err(),
        Some(ChunkerError::ChunkSizeMismatch { position: 2 })
    );

    let mut flipped = pieces.clone();
    flipped[0][10] ^= 1;
    assert_eq!(
        chunker.reconstruct_file(&m, flipped).err(),
        Some(ChunkerError::ChunkHashMismatch { position: 0 })
    );

    let mut wrong_file_hash = m.clone();
    wrong_file_hash.file_hash = EMPTY_SHA256.to_string();
    assert_eq!(
        chunker.reconstruct_file(&wrong_file_hash, pieces).err(),
        Some(ChunkerError::FileHashMismatch)
    );
}

#[test]
fn streamed_chunking_matches_chunk_bytes() {
    let chunker = FileChunker::new(Some(64 * 1024)).unwrap();
    let data: Vec<u8> = (0..200_000u32).map(|i| (i * 7 % 256) as u8).collect();
    let streamed = chunk_reader(&chunker, Cursor::new(data.clone()), "s".to_string(), "s.json".to_string()).unwrap();
    let direct = chunker.chunk_bytes(&data, "s".to_string(), "s.json".to_string()).unwrap();
    assert_eq!(streamed.file_hash, direct.file_hash);
    assert_eq!(streamed.chunks, direct.chunks);
    assert_eq!(streamed.mime_type, Some("application/json".to_string()));
    assert_eq!(streamed.total_size, 200_000);
}

#[test]
fn streamed_hash_covers_all_pieces() {
    let chunker = FileChunker::default();
    let mut session = chunker.start_chunking("p".to_string(), "p".to_string(), 3);
    session.absorb(b"a");
    session.absorb(b"bc");
    assert_eq!(session.chunk_count(), 2);
    assert_eq!(session.bytes_read(), 3);
    let m = session.finish(5);
    assert_eq!(m.file_hash, ABC_SHA256);
    assert_eq!(m.chunks[1].offset, 1);
    assert_eq!(m.chunks[1].index, 1);
    assert_eq!(m.created_at, 5);
}

#[test]
fn streamed_empty_file() {
    let chunker = FileChunker::default();
    let session = chunker.start_chunking("z".to_string(), "z.txt".to_string(), 0);
    assert!(!session.expects_data());
    let m = session.finish(9);
    assert_eq!(m.file_hash, EMPTY_SHA256);
    assert!(m.chunks.is_empty());
    assert_eq!(m.mime_type, None);
}
