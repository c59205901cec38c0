use zephyrfs::redundancy::galois::GaloisField;
use zephyrfs::redundancy::reed_solomon::{
    ChunkType, ReconstructionRequest, RedundancyError, ReedSolomonCodec, ReedSolomonConfig,
    ReedSolomonManager,
};

#[test]
fn test_galois_field_arithmetic() {
    let gf = GaloisField::new();

    // Test basic properties
    assert_eq!(gf.multiply(0, 5), 0);
    assert_eq!(gf.multiply(1, 5), 5);
    assert_eq!(gf.divide(10, 2), gf.multiply(10, gf.divide(1, 2)));

    // Test multiplicative inverse
    for i in 1..=255u8 {
        let inverse = gf.divide(1, i);
        assert_eq!(gf.multiply(i, inverse), 1);
    }
}

#[test]
fn test_reed_solomon_codec_creation() {
    let config = ReedSolomonConfig::default();
    let codec = ReedSolomonCodec::new(config).unwrap();

    assert_eq!(codec.config.data_chunks, 6);
    assert_eq!(codec.config.parity_chunks, 3);
    assert_eq!(codec.encoding_matrix.len(), 9);
}

#[test]
fn test_encoding_and_reconstruction() {
    let config = ReedSolomonConfig {
        data_chunks: 3,
        parity_chunks: 2,
        chunk_size: 1024,
        ..Default::default()
    };

    let mut codec = ReedSolomonCodec::new(config).unwrap();

    // Test data
    let test_data = b"Hello, Reed-Solomon World! This is a test of error correction.".to_vec();

    // Encode
    let chunks = codec.encode("test_chunk".to_string(), &test_data).unwrap();
    assert_eq!(chunks.len(), 5); // 3 data + 2 parity

    // Simulate losing 2 chunks (within error correction capability)
    let available_chunks = vec![chunks[0].clone(), chunks[2].clone(), chunks[4].clone()];
    let missing_indices = vec![1, 3];

    // Reconstruct
    let request = ReconstructionRequest {
        original_chunk_id: "test_chunk".to_string(),
        available_chunks,
        missing_chunk_indices: missing_indices,
        target_chunk_size: 1024,
    };

    let result = codec.decode(request).unwrap();
    assert!(result.success);
    assert_eq!(result.reconstructed_chunks.len(), 2);
    assert!(result.verification_passed);
}

#[test]
fn galois_known_products() {
    let gf = GaloisField::new();
    // 2 * 128 wraps through the primitive polynomial 0x11d: 0x100 ^ 0x11d = 0x1d.
    assert_eq!(gf.multiply(2, 128), 0x1d);
    assert_eq!(gf.multiply(3, 7), 9);
    assert_eq!(gf.multiply(7, 3), 9);
    assert_eq!(gf.divide(0, 9), 0);
    assert_eq!(gf.divide(9, 3), 7);
    assert_eq!(gf.power(2, 8), 0x1d);
    assert_eq!(gf.power(5, 0), 1);
    assert_eq!(gf.power(0, 3), 0);
}

#[test]
fn galois_division_undoes_multiplication() {
    let gf = GaloisField::new();
    for a in 0..=255u8 {
        for b in [1u8, 2, 3, 29, 128, 255] {
            assert_eq!(gf.multiply(gf.divide(a, b), b), a);
        }
    }
}

#[test]
fn encoding_is_systematic() {
    let config = ReedSolomonConfig { data_chunks: 3, parity_chunks: 2, ..Default::default() };
    let codec = ReedSolomonCodec::new(config).unwrap();
    let data: Vec<u8> = (0u8..10).collect();
    let chunks = codec.encode("file".to_string(), &data).unwrap();
    // 10 bytes over 3 data pieces: pieces of 4 bytes, zero-padded.
    assert_eq!(chunks[0].data, vec![0, 1, 2, 3]);
    assert_eq!(chunks[1].data, vec![4, 5, 6, 7]);
    assert_eq!(chunks[2].data, vec![8, 9, 0, 0]);
    assert_eq!(chunks[0].chunk_id, "file_0");
    assert_eq!(chunks[4].chunk_id, "file_4");
    assert_eq!(chunks[0].chunk_type, ChunkType::Data);
    assert_eq!(chunks[3].chunk_type, ChunkType::Parity);
    assert_eq!(chunks[3].chunk_index, 3);
    assert_eq!(chunks[0].metadata.original_size, 4);
    assert_eq!(chunks[2].metadata.original_size, 2);
    assert_eq!(chunks[0].metadata.total_chunks, 5);
}

#[test]
fn checksum_is_wrapping_byte_sum_in_hex() {
    let codec = ReedSolomonCodec::new(ReedSolomonConfig::default()).unwrap();
    assert_eq!(codec.calculate_checksum(&[]), "00000000");
    assert_eq!(codec.calculate_checksum(&[1, 2, 3]), "00000006");
    assert_eq!(codec.calculate_checksum(&[255, 255]), "000001fe");
}

#[test]
fn fault_tolerance_is_parity_count() {
    let codec = ReedSolomonCodec::new(ReedSolomonConfig::default()).unwrap();
    assert_eq!(codec.calculate_fault_tolerance(), 3);
    let schemes = ReedSolomonCodec::get_available_schemes();
    assert_eq!(schemes.len(), 4);
    assert_eq!((schemes[0].data_chunks, schemes[0].parity_chunks), (3, 2));
    assert_eq!((schemes[3].data_chunks, schemes[3].parity_chunks), (8, 6));
}

#[test]
fn decode_with_too_few_chunks_reports_failure() {
    let config = ReedSolomonConfig { data_chunks: 3, parity_chunks: 2, ..Default::default() };
    let mut codec = ReedSolomonCodec::new(config).unwrap();
    let chunks = codec.encode("c".to_string(), b"abcdefghi").unwrap();
    let request = ReconstructionRequest {
        original_chunk_id: "c".to_string(),
        available_chunks: vec![chunks[0].clone(), chunks[1].clone()],
        missing_chunk_indices: vec![2],
        target_chunk_size: 3,
    };
    let result = codec.decode(request).unwrap();
    assert!(!result.success);
    assert!(result.reconstructed_chunks.is_empty());
    assert!(!result.verification_passed);
    assert!(result.error_message.is_some());
}

#[test]
fn reconstruction_recovers_lost_data_pieces() {
    let config = ReedSolomonConfig { data_chunks: 3, parity_chunks: 2, ..Default::default() };
    let mut codec = ReedSolomonCodec::new(config).unwrap();
    let data = b"abcdefghi".to_vec();
    let chunks = codec.encode("c".to_string(), &data).unwrap();
    let request = ReconstructionRequest {
        original_chunk_id: "c".to_string(),
        available_chunks: vec![chunks[3].clone(), chunks[1].clone(), chunks[4].clone()],
        missing_chunk_indices: vec![0, 2],
        target_chunk_size: 3,
    };
    let result = codec.decode(request).unwrap();
    assert!(result.success);
    assert_eq!(result.reconstructed_chunks[0].data, b"abc".to_vec());
    assert_eq!(result.reconstructed_chunks[1].data, b"ghi".to_vec());
    assert_eq!(result.reconstructed_chunks[1].chunk_id, "c_2");
}

#[test]
fn reconstruction_rebuilds_lost_parity() {
    let config = ReedSolomonConfig { data_chunks: 3, parity_chunks: 2, ..Default::default() };
    let mut codec = ReedSolomonCodec::new(config).unwrap();
    let chunks = codec.encode("p".to_string(), b"Hello, parity pieces!").unwrap();
    let request = ReconstructionRequest {
        original_chunk_id: "p".to_string(),
        available_chunks: vec![chunks[0].clone(), chunks[2].clone(), chunks[4].clone()],
        missing_chunk_indices: vec![3, 1, 9],
        target_chunk_size: 7,
    };
    let result = codec.decode(request).unwrap();
    assert_eq!(result.reconstructed_chunks.len(), 2);
    assert_eq!(result.reconstructed_chunks[0].chunk_type, ChunkType::Parity);
    assert_eq!(result.reconstructed_chunks[0].data, chunks[3].data);
    assert_eq!(result.reconstructed_chunks[1].data, chunks[1].data);
    assert_eq!(result.reconstructed_chunks[0].chunk_id, "p_3");
}

#[test]
fn manager_knows_its_schemes() {
    let mut manager = ReedSolomonManager::new().unwrap();
    assert_eq!(manager.default_scheme, "6+3");
    assert_eq!(manager.get_codec("10+4").unwrap().config.parity_chunks, 4);
    match manager.get_codec("5+5") {
        Err(RedundancyError::SchemeNotFound { scheme }) => assert_eq!(scheme, "5+5"),
        _ => panic!("unknown scheme accepted"),
    }
}

#[test]
fn singular_matrix_is_refused() {
    let codec = ReedSolomonCodec::new(ReedSolomonConfig { data_chunks: 2, parity_chunks: 1, ..Default::default() }).unwrap();
    let result = codec.invert_matrix(vec![vec![1, 1], vec![1, 1]]);
    assert!(matches!(result, Err(RedundancyError::MatrixNotInvertible)));
    let inv = codec.invert_matrix(vec![vec![1, 0], vec![0, 1]]).unwrap();
    assert_eq!(inv, vec![vec![1, 0], vec![0, 1]]);
}

#[test]
fn computed_inverse_is_a_left_inverse() {
    let codec = ReedSolomonCodec::new(ReedSolomonConfig { data_chunks: 3, parity_chunks: 2, ..Default::default() }).unwrap();
    let gf = GaloisField::new();
    let m = vec![vec![0u8, 1, 0], vec![1, 1, 1], vec![1, 2, 4]];
    let inv = codec.invert_matrix(m.clone()).unwrap();
    for r in 0..3 {
        for c in 0..3 {
            let mut acc = 0u8;
            for k in 0..3 {
                acc ^= gf.multiply(inv[r][k], m[k][c]);
            }
            assert_eq!(acc, if r == c { 1 } else { 0 });
        }
    }
}

#[test]
fn any_three_of_five_pieces_restore_the_rest() {
    let config = ReedSolomonConfig { data_chunks: 3, parity_chunks: 2, ..Default::default() };
    let mut codec = ReedSolomonCodec::new(config).unwrap();
    let chunks = codec.encode("all".to_string(), b"every subset of three pieces will do").unwrap();
    for a in 0..5usize {
        for b in (a + 1)..5 {
            for c in (b + 1)..5 {
                let missing: Vec<u32> = (0..5u32).filter(|i| *i as usize != a && *i as usize != b && *i as usize != c).collect();
                let request = ReconstructionRequest {
                    original_chunk_id: "all".to_string(),
                    available_chunks: vec![chunks[a].clone(), chunks[b].clone(), chunks[c].clone()],
                    missing_chunk_indices: missing.clone(),
                    target_chunk_size: 0,
                };
                let result = codec.decode(request).unwrap();
                assert!(result.success);
                assert_eq!(result.reconstructed_chunks.len(), 2);
                for (k, m) in missing.iter().enumerate() {
                    assert_eq!(result.reconstructed_chunks[k].data, chunks[*m as usize].data);
                }
            }
        }
    }
}

#[test]
fn singular_inverse_request_leaves_cache_alone_and_fails() {
    // Rows 1+1+1 and a repeated unit row: the chosen rows are linearly dependent.
    let config = ReedSolomonConfig { data_chunks: 2, parity_chunks: 2, ..Default::default() };
    let mut codec = ReedSolomonCodec::new(config).unwrap();
    let chunks = codec.encode("s".to_string(), b"abcd").unwrap();
    let mut dup = chunks[0].clone();
    dup.chunk_index = 0;
    let request = ReconstructionRequest {
        original_chunk_id: "s".to_string(),
        available_chunks: vec![chunks[0].clone(), dup],
        missing_chunk_indices: vec![1],
        target_chunk_size: 2,
    };
    assert!(matches!(codec.decode(request), Err(RedundancyError::MatrixNotInvertible)));
    assert!(codec.decoding_cache.is_empty());
}

#[test]
fn powers_follow_repeated_multiplication() {
    let gf = GaloisField::new();
    assert_eq!(gf.power(2, 8), 29);
    assert_eq!(gf.power(2, 255), 1);
    for e in 0..=255u8 {
        assert_eq!(gf.power(0, e), 0);
    }
    for b in 1..=255u8 {
        assert_eq!(gf.power(b, 0), 1);
        for e in 0..255u8 {
            assert_eq!(gf.power(b, e + 1), gf.multiply(gf.power(b, e), b));
        }
    }
}
