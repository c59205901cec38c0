//! The bookkeeping of the content store: what a stored chunk's metadata records, how
//! storing the same chunk again and deleting it move its reference count, and how a
//! chunk read back is checked against its metadata.
//!
//! The key-value database that holds chunks and metadata is driven by the caller; this
//! module decides what is written and what is answered.

use vstd::prelude::*;
use vstd::string::StrSliceExecFns;
use crate::digest::{sha256_hex, sha256_hex_of, hex_lower, blake3_hash, blake3_digest, hex_encode};
use crate::bytes::concat_bytes;

verus! {

/// Metadata for stored chunks.
#[derive(Debug, Clone)]
pub struct ChunkMetadata {
    /// SHA-256 hash of the chunk content
    pub hash: String,
    /// Size of the chunk in bytes
    pub size: u64,
    /// Timestamp when chunk was stored
    pub stored_at: u64,
    /// Reference count (how many files reference this chunk)
    pub ref_count: u32,
    /// Verification checksum for integrity
    pub checksum: String,
}

/// Storage statistics.
#[derive(Debug, Clone, Copy, PartialEq, Eq, Default)]
pub struct StorageStats {
    pub total_chunks: u64,
    pub total_size: u64,
    pub cache_hits: u64,
    pub cache_misses: u64,
}

/// The second checksum of a chunk: the hex BLAKE3 of its bytes followed by the UTF-8
/// bytes of its hash text.
pub open spec fn chunk_checksum(data: Seq<u8>, hash: Seq<char>) -> Seq<char> {
    hex_lower(blake3_hash(data + vstd::utf8::encode_utf8(hash)))
}

/// Calculates the checksum that guards a chunk besides its hash.
pub fn calculate_checksum(data: &[u8], hash: &str) -> (c: String)
    ensures
        c@ == chunk_checksum(data@, hash@),
{
    let hash_bytes = hash.as_bytes_vec();
    let input = concat_bytes(data, hash_bytes.as_slice());
    let digest = blake3_digest(input.as_slice());
    hex_encode(digest.as_slice())
}

/// `m` is the metadata of `data` newly stored at time `stored_at`, with one reference.
pub open spec fn fresh_metadata(m: ChunkMetadata, data: Seq<u8>, stored_at: u64) -> bool {
    &&& m.hash@ == sha256_hex(data)
    &&& m.size == data.len()
    &&& m.stored_at == stored_at
    &&& m.ref_count == 1
    &&& m.checksum@ == chunk_checksum(data, sha256_hex(data))
}

/// The metadata of a chunk stored for the first time.
pub fn new_chunk_metadata(data: &[u8], stored_at: u64) -> (m: ChunkMetadata)
    ensures
        fresh_metadata(m, data@, stored_at),
{
    let hash = sha256_hex_of(data);
    let checksum = calculate_checksum(data, hash.as_str());
    ChunkMetadata { hash, size: data.len() as u64, stored_at, ref_count: 1, checksum }
}

/// The metadata with one more reference.
pub open spec fn added_reference(m: ChunkMetadata) -> ChunkMetadata {
    ChunkMetadata { ref_count: (m.ref_count + 1) as u32, ..m }
}

/// The metadata with one reference less, never below zero.
pub open spec fn released_reference(m: ChunkMetadata) -> ChunkMetadata {
    ChunkMetadata { ref_count: if m.ref_count > 0 { (m.ref_count - 1) as u32 } else { 0u32 }, ..m }
}

/// What storing a chunk does: add a reference to a chunk already there, or insert a new
/// one.
#[derive(Debug, Clone)]
pub enum StoreAction {
    /// The chunk is already stored: rewrite its metadata with one more reference.
    AddReference(ChunkMetadata),
    /// The chunk is new: write its data and this metadata.
    Insert(ChunkMetadata),
}

/// Decides how to store `data` under an identifier whose current metadata is `existing`:
/// returns the hash of `data` and the action. A chunk already stored keeps its metadata
/// and gains a reference; a new one gets fresh metadata.
pub fn plan_store(existing: Option<ChunkMetadata>, data: &[u8], stored_at: u64) -> (r: (String, StoreAction))
    requires
        existing matches Some(m) ==> m.ref_count < u32::MAX,
    ensures
        r.0@ == sha256_hex(data@),
        match existing {
            Some(m) => r.1 matches StoreAction::AddReference(u) && u == added_reference(m),
            None => r.1 matches StoreAction::Insert(n) && fresh_metadata(n, data@, stored_at),
        },
{
    let metadata = new_chunk_metadata(data, stored_at);
    let hash = metadata.hash.clone();
    match existing {
        Some(m) => {
            let updated = ChunkMetadata { ref_count: m.ref_count + 1, ..m };
            (hash, StoreAction::AddReference(updated))
        },
        None => (hash, StoreAction::Insert(metadata)),
    }
}

/// Drops one reference to a stored chunk (never below zero). Returns the updated metadata
/// and whether the chunk is now unreferenced and to be deleted.
pub fn release_reference(m: ChunkMetadata) -> (r: (ChunkMetadata, bool))
    ensures
        r.0 == released_reference(m),
        r.1 == (m.ref_count <= 1),
{
    let count = m.ref_count.saturating_sub(1);
    let updated = ChunkMetadata { ref_count: count, ..m };
    (updated, count == 0)
}

/// A chunk read back is intact: its size, its SHA-256 and its checksum all match the
/// metadata.
pub open spec fn chunk_intact(data: Seq<u8>, m: ChunkMetadata) -> bool {
    &&& data.len() == m.size
    &&& sha256_hex(data) == m.hash@
    &&& chunk_checksum(data, sha256_hex(data)) == m.checksum@
}

/// Verifies a chunk read back against its metadata.
pub fn verify_chunk_integrity(data: &[u8], m: &ChunkMetadata) -> (ok: bool)
    ensures
        ok == chunk_intact(data@, *m),
{
    if data.len() as u64 != m.size {
        return false;
    }
    let computed_hash = sha256_hex_of(data);
    if computed_hash != m.hash {
        return false;
    }
    let computed_checksum = calculate_checksum(data, computed_hash.as_str());
    computed_checksum == m.checksum
}

/// A chunk stored for the first time verifies against its own metadata.
pub proof fn lemma_fresh_chunk_intact(data: Seq<u8>, m: ChunkMetadata, stored_at: u64)
    requires
        fresh_metadata(m, data, stored_at),
    ensures
        chunk_intact(data, m),
{
}

/// Storing a chunk that is already there and then deleting it once leaves its metadata
/// as it was: the release takes back exactly the reference the store added, and does not
/// delete the chunk.
pub proof fn lemma_release_undoes_add(m: ChunkMetadata)
    requires
        m.ref_count < u32::MAX,
    ensures
        released_reference(added_reference(m)) == m,
        !(added_reference(m).ref_count <= 1) <== m.ref_count >= 1,
{
}

impl StorageStats {
    /// Counts an inserted chunk of `size` bytes: a chunk id that was not stored before
    /// adds one chunk and its size, and a chunk id that was already stored changes neither.
    pub fn record_insert(&mut self, is_new: bool, size: u64)
        requires
            is_new ==> old(self).total_chunks < u64::MAX && old(self).total_size + size <= u64::MAX,
        ensures
            is_new ==> final(self).total_chunks == old(self).total_chunks + 1 && final(self).total_size
                == old(self).total_size + size,
            !is_new ==> final(self).total_chunks == old(self).total_chunks && final(self).total_size
                == old(self).total_size,
            final(self).cache_hits == old(self).cache_hits,
            final(self).cache_misses == old(self).cache_misses,
    {
        if is_new {
            self.total_chunks = self.total_chunks + 1;
            self.total_size = self.total_size + size;
        }
    }

    /// Counts a deleted chunk of `size` bytes, never going below zero.
    pub fn record_delete(&mut self, size: u64)
        ensures
            final(self).total_chunks == if old(self).total_chunks > 0 { old(self).total_chunks - 1 } else { 0 },
            final(self).total_size == if old(self).total_size >= size { old(self).total_size - size } else { 0 },
            final(self).cache_hits == old(self).cache_hits,
            final(self).cache_misses == old(self).cache_misses,
    {
        self.total_chunks = self.total_chunks.saturating_sub(1);
        self.total_size = self.total_size.saturating_sub(size);
    }

    /// Counts a metadata lookup answered from the cache.
    pub fn record_cache_hit(&mut self)
        requires
            old(self).cache_hits < u64::MAX,
        ensures
            *final(self) == (StorageStats { cache_hits: (old(self).cache_hits + 1) as u64, ..*old(self) }),
    {
        self.cache_hits = self.cache_hits + 1;
    }

    /// Counts a metadata lookup that had to go to the database.
    pub fn record_cache_miss(&mut self)
        requires
            old(self).cache_misses < u64::MAX,
        ensures
            *final(self) == (StorageStats { cache_misses: (old(self).cache_misses + 1) as u64, ..*old(self) }),
    {
        self.cache_misses = self.cache_misses + 1;
    }
}

} // verus!
