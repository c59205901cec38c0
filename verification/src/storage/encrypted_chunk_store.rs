//! Records of the zero-knowledge chunk store: encrypted chunks are addressed by the hash
//! of their ciphertext, nonce and associated data, deduplicated by that address, and
//! checked against a checksum when read back. Nothing here sees plaintext.

use vstd::prelude::*;
use vstd::string::StrSliceExecFns;
use crate::digest::{sha256_hex, hex_encode, Sha256Stream};

verus! {

/// Metadata for encrypted chunks stored in the system.
#[derive(Debug, Clone)]
pub struct EncryptedChunkMetadata {
    /// Content hash of the encrypted chunk (for deduplication)
    pub encrypted_hash: String,
    /// Size of the encrypted chunk in bytes
    pub encrypted_size: u64,
    /// Timestamp when chunk was stored
    pub stored_at: u64,
    /// Reference count (how many encrypted files reference this chunk)
    pub ref_count: u32,
    /// Verification checksum for integrity (of encrypted data)
    pub checksum: String,
    /// Content addressing hash (encrypted, for lookup)
    pub content_id: Option<String>,
    /// Encryption nonce (safe to store)
    pub nonce: [u8; 12],
    /// Additional authenticated data (encrypted metadata)
    pub aad: Vec<u8>,
    /// Key derivation path (safe to store, no keys)
    pub key_path: Vec<u32>,
}

/// Enhanced file metadata that includes encryption information.
#[derive(Debug, Clone)]
pub struct EncryptedFileMetadata {
    /// Original filename (encrypted)
    pub encrypted_name: Vec<u8>,
    /// Encrypted file size info
    pub encrypted_size_info: Vec<u8>,
    /// File hash of encrypted data
    pub encrypted_file_hash: String,
    /// List of encrypted chunk IDs
    pub encrypted_chunk_ids: Vec<String>,
    /// Timestamp (can be plaintext for sorting)
    pub created_at: u64,
    pub modified_at: u64,
    /// Encryption metadata
    pub encryption_metadata: EncryptionMetadata,
    /// Access control capabilities (encrypted)
    pub capabilities: Vec<u8>,
}

/// Encryption-specific metadata stored with files.
#[derive(Debug, Clone)]
pub struct EncryptionMetadata {
    /// Encryption algorithm version
    pub version: u32,
    /// Number of encrypted segments
    pub segment_count: u32,
    /// Chunk size used for encryption (MB)
    pub chunk_size_mb: u32,
    /// Content addressing algorithm
    pub content_hash_algorithm: String,
    /// Verification hash algorithm
    pub verification_hash_algorithm: String,
    /// Master nonce for file-level operations
    pub master_nonce: [u8; 12],
    /// Encrypted content verification data
    pub encrypted_content_verification: Vec<u8>,
}

/// Capability token for secure file access.
#[derive(Debug, Clone)]
pub struct FileCapability {
    /// Unique capability ID
    pub capability_id: String,
    /// File ID this capability grants access to
    pub file_id: String,
    /// Encrypted access permissions (read, write, share, etc.)
    pub encrypted_permissions: Vec<u8>,
    /// Encrypted key material for this capability
    pub encrypted_key_material: Vec<u8>,
    /// Capability expiration timestamp (optional)
    pub expires_at: Option<u64>,
    /// Created timestamp
    pub created_at: u64,
    /// Capability signature (for verification)
    pub signature: Vec<u8>,
}

/// Statistics of the encrypted store.
#[derive(Debug, Clone, Copy, PartialEq, Eq, Default)]
pub struct EncryptedStorageStats {
    pub total_encrypted_chunks: u64,
    pub total_encrypted_size: u64,
    pub total_encrypted_files: u64,
    pub active_capabilities: u64,
    pub cache_hits: u64,
    pub cache_misses: u64,
    pub deduplication_savings: u64,
}

/// The address of an encrypted chunk: the hex SHA-256 of its ciphertext, nonce and
/// associated data, one after another.
pub open spec fn encrypted_address(ciphertext: Seq<u8>, nonce: Seq<u8>, aad: Seq<u8>) -> Seq<char> {
    sha256_hex(ciphertext + nonce + aad)
}

/// Computes the address of an encrypted chunk.
pub fn encrypted_content_hash(ciphertext: &[u8], nonce: &[u8; 12], aad: &[u8]) -> (h: String)
    ensures
        h@ == encrypted_address(ciphertext@, nonce@, aad@),
{
    let mut hasher = Sha256Stream::new();
    hasher.update(ciphertext);
    hasher.update(nonce.as_slice());
    hasher.update(aad);
    proof {
        assert(Seq::<u8>::empty() + ciphertext@ + nonce@ + aad@ =~= ciphertext@ + nonce@ + aad@);
    }
    let digest = hasher.finalize();
    hex_encode(digest.as_slice())
}

/// The domain tag appended to every encrypted-chunk checksum input.
pub open spec fn checksum_tag() -> Seq<char> {
    "zephyrfs-encrypted-chunk-v1"@
}

/// The checksum of an encrypted chunk: the hex SHA-256 of its ciphertext, the UTF-8 bytes
/// of its address and the domain tag.
pub open spec fn encrypted_checksum(ciphertext: Seq<u8>, address: Seq<char>) -> Seq<char> {
    sha256_hex(ciphertext + vstd::utf8::encode_utf8(address) + vstd::utf8::encode_utf8(checksum_tag()))
}

/// Calculates the checksum of an encrypted chunk stored under `hash`.
pub fn calculate_encrypted_checksum(ciphertext: &[u8], hash: &str) -> (c: String)
    ensures
        c@ == encrypted_checksum(ciphertext@, hash@),
{
    let mut hasher = Sha256Stream::new();
    hasher.update(ciphertext);
    let hash_bytes = hash.as_bytes_vec();
    hasher.update(hash_bytes.as_slice());
    let tag = "zephyrfs-encrypted-chunk-v1";
    let tag_bytes = tag.as_bytes_vec();
    hasher.update(tag_bytes.as_slice());
    proof {
        assert(Seq::<u8>::empty() + ciphertext@ + hash_bytes@ + tag_bytes@ =~= ciphertext@ + hash_bytes@ + tag_bytes@);
    }
    let digest = hasher.finalize();
    hex_encode(digest.as_slice())
}

/// `m` is the metadata of an encrypted chunk newly stored at `stored_at`.
pub open spec fn fresh_encrypted_metadata(
    m: EncryptedChunkMetadata,
    ciphertext: Seq<u8>,
    nonce: [u8; 12],
    aad: Seq<u8>,
    key_path: Seq<u32>,
    stored_at: u64,
) -> bool {
    let address = encrypted_address(ciphertext, nonce@, aad);
    &&& m.encrypted_hash@ == address
    &&& m.encrypted_size == ciphertext.len()
    &&& m.stored_at == stored_at
    &&& m.ref_count == 1
    &&& m.checksum@ == encrypted_checksum(ciphertext, address)
    &&& m.content_id is None
    &&& m.nonce == nonce
    &&& m.aad@ == aad
    &&& m.key_path@ == key_path
}

/// The metadata of an encrypted chunk stored for the first time.
pub fn new_encrypted_chunk_metadata(
    ciphertext: &[u8],
    nonce: [u8; 12],
    aad: &[u8],
    key_path: &[u32],
    stored_at: u64,
) -> (m: EncryptedChunkMetadata)
    ensures
        fresh_encrypted_metadata(m, ciphertext@, nonce, aad@, key_path@, stored_at),
{
    let encrypted_hash = encrypted_content_hash(ciphertext, &nonce, aad);
    let checksum = calculate_encrypted_checksum(ciphertext, encrypted_hash.as_str());
    EncryptedChunkMetadata {
        encrypted_hash,
        encrypted_size: ciphertext.len() as u64,
        stored_at,
        ref_count: 1,
        checksum,
        content_id: None,
        nonce,
        aad: vstd::slice::slice_to_vec(aad),
        key_path: vstd::slice::slice_to_vec(key_path),
    }
}

/// The metadata of an encrypted chunk stored again: one more reference.
pub fn add_encrypted_reference(m: EncryptedChunkMetadata) -> (r: EncryptedChunkMetadata)
    requires
        m.ref_count < u32::MAX,
    ensures
        r == (EncryptedChunkMetadata { ref_count: (m.ref_count + 1) as u32, ..m }),
{
    EncryptedChunkMetadata { ref_count: m.ref_count + 1, ..m }
}

/// Whether ciphertext read back under address `hash` matches the stored checksum.
pub fn verify_encrypted_chunk(ciphertext: &[u8], hash: &str, m: &EncryptedChunkMetadata) -> (ok: bool)
    ensures
        ok == (encrypted_checksum(ciphertext@, hash@) == m.checksum@),
{
    let computed = calculate_encrypted_checksum(ciphertext, hash);
    computed == m.checksum
}

/// Ciphertext stored for the first time passes the check when read back under its address.
pub proof fn lemma_fresh_encrypted_chunk_verifies(
    m: EncryptedChunkMetadata,
    ciphertext: Seq<u8>,
    nonce: [u8; 12],
    aad: Seq<u8>,
    key_path: Seq<u32>,
    stored_at: u64,
)
    requires
        fresh_encrypted_metadata(m, ciphertext, nonce, aad, key_path, stored_at),
    ensures
        encrypted_checksum(ciphertext, m.encrypted_hash@) == m.checksum@,
{
}

impl EncryptedStorageStats {
    /// Counts a newly stored encrypted chunk of `size` bytes.
    pub fn record_new_chunk(&mut self, size: u64)
        requires
            old(self).total_encrypted_chunks < u64::MAX,
            old(self).total_encrypted_size + size <= u64::MAX,
        ensures
            *final(self) == (EncryptedStorageStats {
                total_encrypted_chunks: (old(self).total_encrypted_chunks + 1) as u64,
                total_encrypted_size: (old(self).total_encrypted_size + size) as u64,
                ..*old(self)
            }),
    {
        self.total_encrypted_chunks = self.total_encrypted_chunks + 1;
        self.total_encrypted_size = self.total_encrypted_size + size;
    }

    /// Counts a stored file record.
    pub fn record_file(&mut self)
        requires
            old(self).total_encrypted_files < u64::MAX,
        ensures
            *final(self) == (EncryptedStorageStats {
                total_encrypted_files: (old(self).total_encrypted_files + 1) as u64,
                ..*old(self)
            }),
    {
        self.total_encrypted_files = self.total_encrypted_files + 1;
    }

    /// Counts a stored capability.
    pub fn record_capability(&mut self)
        requires
            old(self).active_capabilities < u64::MAX,
        ensures
            *final(self) == (EncryptedStorageStats {
                active_capabilities: (old(self).active_capabilities + 1) as u64,
                ..*old(self)
            }),
    {
        self.active_capabilities = self.active_capabilities + 1;
    }

    /// Counts a chunk served from the store.
    pub fn record_cache_hit(&mut self)
        requires
            old(self).cache_hits < u64::MAX,
        ensures
            *final(self) == (EncryptedStorageStats { cache_hits: (old(self).cache_hits + 1) as u64, ..*old(self) }),
    {
        self.cache_hits = self.cache_hits + 1;
    }
}

} // verus!
