//! File records of the metadata store and the checksum that guards each record.
//!
//! A record is sealed with a BLAKE3 checksum over its identifying fields before it is
//! written, and checked against it when it is read back.

use vstd::prelude::*;
use vstd::string::StrSliceExecFns;
use crate::digest::{hex_lower, blake3_hash, blake3_digest, hex_encode};
use crate::bytes::concat_bytes;

verus! {

/// File metadata with comprehensive tracking.
#[derive(Debug, Clone)]
pub struct FileMetadata {
    /// Original filename (encrypted if privacy mode enabled)
    pub name: String,
    /// File size in bytes
    pub size: u64,
    /// MIME type detection
    pub mime_type: Option<String>,
    /// SHA-256 hash of complete file
    pub file_hash: String,
    /// List of chunk IDs that comprise this file
    pub chunk_ids: Vec<String>,
    /// Creation timestamp
    pub created_at: u64,
    /// Last modified timestamp
    pub modified_at: u64,
    /// Access permissions (future use)
    pub permissions: u32,
    /// Integrity checksum for metadata verification
    pub checksum: String,
}

/// The `k` low bytes of `n`, least significant first.
pub open spec fn le_bytes(n: nat, k: nat) -> Seq<u8>
    decreases k,
{
    if k == 0 {
        Seq::empty()
    } else {
        seq![(n % 256) as u8] + le_bytes(n / 256, (k - 1) as nat)
    }
}

/// The `k` low bytes of `n`, least significant first.
pub fn le_bytes_of(n: u64, k: usize) -> (r: Vec<u8>)
    requires
        k <= 8,
    ensures
        r@ == le_bytes(n as nat, k as nat),
    decreases k,
{
    if k == 0 {
        Vec::new()
    } else {
        let rest = le_bytes_of(n / 256, k - 1);
        let mut r: Vec<u8> = Vec::new();
        r.push((n % 256) as u8);
        let r = concat_bytes(r.as_slice(), rest.as_slice());
        proof {
            assert(r@ =~= seq![(n % 256) as u8] + le_bytes((n / 256) as nat, (k - 1) as nat));
        }
        r
    }
}

/// The UTF-8 bytes of a list of identifiers, one after another.
pub open spec fn ids_bytes(ids: Seq<String>) -> Seq<u8> {
    Seq::new(ids.len(), |i: int| vstd::utf8::encode_utf8(ids[i]@)).flatten()
}

/// What a record's checksum covers: its name, size, file hash, creation time,
/// permissions and chunk identifiers, in that order; text as UTF-8, numbers as
/// little-endian bytes.
pub open spec fn checksum_input(m: FileMetadata) -> Seq<u8> {
    vstd::utf8::encode_utf8(m.name@) + le_bytes(m.size as nat, 8) + vstd::utf8::encode_utf8(m.file_hash@)
        + le_bytes(m.created_at as nat, 8) + le_bytes(m.permissions as nat, 4) + ids_bytes(m.chunk_ids@)
}

/// The checksum of a record: the hex BLAKE3 of what it covers.
pub open spec fn metadata_checksum(m: FileMetadata) -> Seq<char> {
    hex_lower(blake3_hash(checksum_input(m)))
}

/// Calculates the checksum of a record.
pub fn calculate_metadata_checksum(m: &FileMetadata) -> (c: String)
    ensures
        c@ == metadata_checksum(*m),
{
    let mut input = m.name.as_str().as_bytes_vec();
    let size = le_bytes_of(m.size, 8);
    input = concat_bytes(input.as_slice(), size.as_slice());
    let hash = m.file_hash.as_str().as_bytes_vec();
    input = concat_bytes(input.as_slice(), hash.as_slice());
    let created = le_bytes_of(m.created_at, 8);
    input = concat_bytes(input.as_slice(), created.as_slice());
    let perms = le_bytes_of(m.permissions as u64, 4);
    input = concat_bytes(input.as_slice(), perms.as_slice());
    let ghost head = input@;
    let ghost ids = m.chunk_ids@;
    let mut k: usize = 0;
    proof {
        assert(Seq::new(0, |i: int| vstd::utf8::encode_utf8(ids[i]@)) =~= Seq::<Seq<u8>>::empty());
        assert(head =~= head + Seq::<Seq<u8>>::empty().flatten());
    }
    while k < m.chunk_ids.len()
        invariant
            k <= ids.len(),
            ids == m.chunk_ids@,
            input@ == head + Seq::new(k as nat, |i: int| vstd::utf8::encode_utf8(ids[i]@)).flatten(),
        decreases ids.len() - k,
    {
        let id_bytes = m.chunk_ids[k].as_str().as_bytes_vec();
        input = concat_bytes(input.as_slice(), id_bytes.as_slice());
        proof {
            let prev = Seq::new(k as nat, |i: int| vstd::utf8::encode_utf8(ids[i]@));
            let next = Seq::new((k + 1) as nat, |i: int| vstd::utf8::encode_utf8(ids[i]@));
            assert(next =~= prev.push(vstd::utf8::encode_utf8(ids[k as int]@)));
            prev.lemma_flatten_push(vstd::utf8::encode_utf8(ids[k as int]@));
        }
        k = k + 1;
    }
    proof {
        assert(input@ =~= checksum_input(*m));
    }
    let digest = blake3_digest(input.as_slice());
    hex_encode(digest.as_slice())
}

/// Whether a record read back carries the checksum of its own fields.
pub fn verify_metadata_integrity(m: &FileMetadata) -> (ok: bool)
    ensures
        ok == (metadata_checksum(*m) == m.checksum@),
{
    let computed = calculate_metadata_checksum(m);
    computed == m.checksum
}

/// Prepares a record for writing: sets its checksum and its modification time `now`.
pub fn seal_metadata(m: FileMetadata, now: u64) -> (s: FileMetadata)
    ensures
        s.checksum@ == metadata_checksum(m),
        s.modified_at == now,
        s.name == m.name,
        s.size == m.size,
        s.mime_type == m.mime_type,
        s.file_hash == m.file_hash,
        s.chunk_ids == m.chunk_ids,
        s.created_at == m.created_at,
        s.permissions == m.permissions,
{
    let checksum = calculate_metadata_checksum(&m);
    FileMetadata { checksum, modified_at: now, ..m }
}

/// A sealed record passes the integrity check: the checksum covers neither the
/// modification time nor itself.
pub proof fn lemma_sealed_record_verifies(m: FileMetadata, s: FileMetadata, now: u64)
    requires
        s.checksum@ == metadata_checksum(m),
        s.name == m.name,
        s.size == m.size,
        s.file_hash == m.file_hash,
        s.chunk_ids == m.chunk_ids,
        s.created_at == m.created_at,
        s.permissions == m.permissions,
    ensures
        metadata_checksum(s) == s.checksum@,
{
    assert(checksum_input(s) == checksum_input(m));
}

} // verus!
