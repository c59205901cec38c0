//! What the storage front end reports about a stored file, and how the pieces of an
//! encrypted file are named.

use vstd::prelude::*;
use crate::text::{push_char, format_decimal, decimal};

verus! {

/// File storage result containing information about how the file was stored.
#[derive(Debug, Clone)]
pub struct FileStorageResult {
    pub file_hash: String,
    pub is_encrypted: bool,
    pub chunk_count: usize,
    pub content_id: Option<String>,
    pub capability_id: Option<String>,
}

/// The result of storing a file in the clear: it counts as a single unit, with no content
/// identifier or capability.
pub fn plaintext_storage_result(file_hash: String) -> (r: FileStorageResult)
    ensures
        r.file_hash == file_hash,
        !r.is_encrypted,
        r.chunk_count == 1,
        r.content_id is None,
        r.capability_id is None,
{
    FileStorageResult { file_hash, is_encrypted: false, chunk_count: 1, content_id: None, capability_id: None }
}

/// The result of storing an encrypted file of `segments` segments whose content
/// identifier is `content_id`: the identifier doubles as the file hash.
pub fn encrypted_storage_result(content_id: String, segments: usize, capability_id: String) -> (r: FileStorageResult)
    ensures
        r.file_hash@ == content_id@,
        r.is_encrypted,
        r.chunk_count == segments,
        r.content_id matches Some(c) && c@ == content_id@,
        r.capability_id == Some(capability_id),
{
    let file_hash = content_id.clone();
    FileStorageResult {
        file_hash,
        is_encrypted: true,
        chunk_count: segments,
        content_id: Some(content_id),
        capability_id: Some(capability_id),
    }
}

/// The identifier under which segment `index` of an encrypted file is stored:
/// `"{file_id}:{index}"`.
pub open spec fn segment_chunk_id(file_id: Seq<char>, index: nat) -> Seq<char> {
    file_id.push(':') + decimal(index)
}

/// Builds the identifier of segment `index` of an encrypted file.
pub fn format_segment_chunk_id(file_id: &str, index: u64) -> (s: String)
    ensures
        s@ == segment_chunk_id(file_id@, index as nat),
{
    let mut s = file_id.to_owned();
    push_char(&mut s, ':');
    let digits = format_decimal(index);
    s.concat(digits.as_str())
}

} // verus!
