//! The storage manager's own decisions: the MIME type it records for a stored file, and
//! how a file is put back together from the chunks its record lists.

use vstd::prelude::*;
use crate::digest::{sha256_hex, sha256_hex_of};
use crate::storage::file_chunker::{
    ChunkInfo, ChunkerError, FileChunker, FileMetadata as ChunkerFileMetadata, ascii_lower, buffers_view,
    extension_chars, eq_ascii_ci, opt_chars, path_extension, pieces_of, piece_count,
    lemma_pieces_flatten, lemma_piece_count_covers,
};
use crate::storage::metadata_store::FileMetadata as StoredFileMetadata;

verus! {

/// The MIME type recorded for a file's extension, compared without regard to ASCII case.
pub open spec fn stored_mime_for_extension(e: Seq<char>) -> Option<Seq<char>> {
    let l = ascii_lower(e);
    if l == "txt"@ {
        Some("text/plain"@)
    } else if l == "json"@ {
        Some("application/json"@)
    } else if l == "xml"@ {
        Some("application/xml"@)
    } else if l == "html"@ {
        Some("text/html"@)
    } else if l == "css"@ {
        Some("text/css"@)
    } else if l == "js"@ {
        Some("application/javascript"@)
    } else if l == "mp4"@ {
        Some("video/mp4"@)
    } else if l == "mp3"@ {
        Some("audio/mpeg"@)
    } else if l == "zip"@ {
        Some("application/zip"@)
    } else {
        None
    }
}

/// The MIME type announced by a file's first bytes: JPEG, PNG, GIF or PDF signatures.
pub open spec fn mime_for_magic(data: Seq<u8>) -> Option<Seq<char>> {
    if data.len() < 4 {
        None
    } else if data[0] == 0xFF && data[1] == 0xD8 && data[2] == 0xFF {
        Some("image/jpeg"@)
    } else if data[0] == 0x89 && data[1] == 0x50 && data[2] == 0x4E && data[3] == 0x47 {
        Some("image/png"@)
    } else if data[0] == 0x47 && data[1] == 0x49 && data[2] == 0x46 {
        Some("image/gif"@)
    } else if data[0] == 0x25 && data[1] == 0x50 && data[2] == 0x44 && data[3] == 0x46 {
        Some("application/pdf"@)
    } else {
        None
    }
}

/// The MIME type recorded for a stored file: its signature if it has a known one, else
/// the type of its extension.
pub open spec fn stored_mime(data: Seq<u8>, filename: Seq<char>) -> Option<Seq<char>> {
    match mime_for_magic(data) {
        Some(m) => Some(m),
        None => match path_extension(filename) {
            Some(e) => stored_mime_for_extension(e),
            None => None,
        },
    }
}

/// Detects the MIME type of a stored file from its content and its name.
pub fn detect_mime_type(data: &[u8], filename: &str) -> (m: Option<String>)
    ensures
        opt_chars(m) == stored_mime(data@, filename@),
{
    if data.len() >= 4 {
        if data[0] == 0xFF && data[1] == 0xD8 && data[2] == 0xFF {
            return Some("image/jpeg".to_owned());
        }
        if data[0] == 0x89 && data[1] == 0x50 && data[2] == 0x4E && data[3] == 0x47 {
            return Some("image/png".to_owned());
        }
        if data[0] == 0x47 && data[1] == 0x49 && data[2] == 0x46 {
            return Some("image/gif".to_owned());
        }
        if data[0] == 0x25 && data[1] == 0x50 && data[2] == 0x44 && data[3] == 0x46 {
            return Some("application/pdf".to_owned());
        }
    }
    let ext = match extension_chars(filename) {
        Some(e) => e,
        None => {
            return None;
        },
    };
    if eq_ascii_ci(&ext, "txt") {
        Some("text/plain".to_owned())
    } else if eq_ascii_ci(&ext, "json") {
        Some("application/json".to_owned())
    } else if eq_ascii_ci(&ext, "xml") {
        Some("application/xml".to_owned())
    } else if eq_ascii_ci(&ext, "html") {
        Some("text/html".to_owned())
    } else if eq_ascii_ci(&ext, "css") {
        Some("text/css".to_owned())
    } else if eq_ascii_ci(&ext, "js") {
        Some("application/javascript".to_owned())
    } else if eq_ascii_ci(&ext, "mp4") {
        Some("video/mp4".to_owned())
    } else if eq_ascii_ci(&ext, "mp3") {
        Some("audio/mpeg".to_owned())
    } else if eq_ascii_ci(&ext, "zip") {
        Some("application/zip".to_owned())
    } else {
        None
    }
}

/// The MIME type recorded for a stored file: a known signature decides it whatever the
/// name — JPEG for `FF D8 FF`, PNG for `89 50 4E 47`, GIF for `47 49 46`, PDF for
/// `25 50 44 46` in the first four of at least four bytes; otherwise the file name's
/// extension decides it, without regard to ASCII case, for the nine known extensions, and
/// any other name leaves the type unknown.
pub proof fn lemma_recorded_mime_types(data: Seq<u8>, filename: Seq<char>, e: Seq<char>)
    ensures
        data.len() >= 4 && data[0] == 0xFF && data[1] == 0xD8 && data[2] == 0xFF ==> stored_mime(data, filename)
            == Some("image/jpeg"@),
        data.len() >= 4 && data[0] == 0x89 && data[1] == 0x50 && data[2] == 0x4E && data[3] == 0x47 ==> stored_mime(
            data,
            filename,
        ) == Some("image/png"@),
        data.len() >= 4 && data[0] == 0x47 && data[1] == 0x49 && data[2] == 0x46 ==> stored_mime(data, filename)
            == Some("image/gif"@),
        data.len() >= 4 && data[0] == 0x25 && data[1] == 0x50 && data[2] == 0x44 && data[3] == 0x46 ==> stored_mime(
            data,
            filename,
        ) == Some("application/pdf"@),
        mime_for_magic(data) is None && path_extension(filename) == Some(e) ==> {
            let l = ascii_lower(e);
            &&& l == "txt"@ ==> stored_mime(data, filename) == Some("text/plain"@)
            &&& l == "json"@ ==> stored_mime(data, filename) == Some("application/json"@)
            &&& l == "xml"@ ==> stored_mime(data, filename) == Some("application/xml"@)
            &&& l == "html"@ ==> stored_mime(data, filename) == Some("text/html"@)
            &&& l == "css"@ ==> stored_mime(data, filename) == Some("text/css"@)
            &&& l == "js"@ ==> stored_mime(data, filename) == Some("application/javascript"@)
            &&& l == "mp4"@ ==> stored_mime(data, filename) == Some("video/mp4"@)
            &&& l == "mp3"@ ==> stored_mime(data, filename) == Some("audio/mpeg"@)
            &&& l == "zip"@ ==> stored_mime(data, filename) == Some("application/zip"@)
            &&& l != "txt"@ && l != "json"@ && l != "xml"@ && l != "html"@ && l != "css"@ && l != "js"@ && l
                != "mp4"@ && l != "mp3"@ && l != "zip"@ ==> stored_mime(data, filename) is None
        },
        mime_for_magic(data) is None && path_extension(filename) is None ==> stored_mime(data, filename) is None,
{
    reveal_strlit("txt");
    reveal_strlit("json");
    reveal_strlit("xml");
    reveal_strlit("html");
    reveal_strlit("css");
    reveal_strlit("js");
    reveal_strlit("mp4");
    reveal_strlit("mp3");
    reveal_strlit("zip");
    if mime_for_magic(data) is None && path_extension(filename) == Some(e) {
        assert(stored_mime(data, filename) == stored_mime_for_extension(e));
        assert("txt"@.len() == 3 && "json"@.len() == 4 && "xml"@.len() == 3 && "html"@.len() == 4);
        assert("css"@.len() == 3 && "js"@.len() == 2 && "mp4"@.len() == 3 && "mp3"@.len() == 3 && "zip"@.len() == 3);
        assert("txt"@ != "xml"@) by { assert("txt"@[0] != "xml"@[0]); }
        assert("txt"@ != "css"@) by { assert("txt"@[0] != "css"@[0]); }
        assert("txt"@ != "mp4"@) by { assert("txt"@[0] != "mp4"@[0]); }
        assert("txt"@ != "mp3"@) by { assert("txt"@[0] != "mp3"@[0]); }
        assert("txt"@ != "zip"@) by { assert("txt"@[0] != "zip"@[0]); }
        assert("xml"@ != "css"@) by { assert("xml"@[0] != "css"@[0]); }
        assert("xml"@ != "mp4"@) by { assert("xml"@[0] != "mp4"@[0]); }
        assert("xml"@ != "mp3"@) by { assert("xml"@[0] != "mp3"@[0]); }
        assert("xml"@ != "zip"@) by { assert("xml"@[0] != "zip"@[0]); }
        assert("css"@ != "mp4"@) by { assert("css"@[0] != "mp4"@[0]); }
        assert("css"@ != "mp3"@) by { assert("css"@[0] != "mp3"@[0]); }
        assert("css"@ != "zip"@) by { assert("css"@[0] != "zip"@[0]); }
        assert("mp4"@ != "mp3"@) by { assert("mp4"@[2] != "mp3"@[2]); }
        assert("mp4"@ != "zip"@) by { assert("mp4"@[0] != "zip"@[0]); }
        assert("mp3"@ != "zip"@) by { assert("mp3"@[0] != "zip"@[0]); }
        assert("json"@ != "html"@) by { assert("json"@[0] != "html"@[0]); }
    }
}

/// Two names whose extensions differ only in ASCII case give data without a known
/// signature the same MIME type.
pub proof fn lemma_mime_ignores_extension_case(data: Seq<u8>, f1: Seq<char>, f2: Seq<char>, e1: Seq<char>, e2: Seq<char>)
    requires
        path_extension(f1) == Some(e1),
        path_extension(f2) == Some(e2),
        ascii_lower(e1) == ascii_lower(e2),
    ensures
        stored_mime(data, f1) == stored_mime(data, f2),
{
}

/// Why a stored file could not be handed back.
#[derive(Debug, Clone, PartialEq, Eq)]
pub enum StorageError {
    /// Reassembling the chunks failed.
    Reconstruction(ChunkerError),
    /// The reassembled file does not hash to the recorded file hash.
    FileHashMismatch,
}

/// What reassembling the chunks of a stored file gives: the chunks one after another when
/// they hash to the recorded file hash, else a hash mismatch.
pub open spec fn reassembly(record: StoredFileMetadata, pieces: Seq<Seq<u8>>) -> Result<Seq<u8>, StorageError> {
    if sha256_hex(pieces.flatten()) == record.file_hash@ {
        Ok(pieces.flatten())
    } else {
        Err(StorageError::Reconstruction(ChunkerError::FileHashMismatch))
    }
}

/// Puts a stored file back together from the chunks its record lists, fetched in order:
/// each chunk is described by its own hash and size, the chunks are checked and joined,
/// and the result is checked against the recorded file hash.
pub fn reassemble_file(
    chunker: &FileChunker,
    file_id: &str,
    record: &StoredFileMetadata,
    chunk_size: usize,
    chunk_data: Vec<Vec<u8>>,
) -> (r: Result<Vec<u8>, StorageError>)
    requires
        chunk_data@.len() == record.chunk_ids@.len(),
        chunk_data@.len() <= 0x1_0000_0000,
        buffers_view(chunk_data@).flatten().len() <= u64::MAX,
    ensures
        match r {
            Ok(v) => reassembly(*record, buffers_view(chunk_data@)) == Ok::<Seq<u8>, StorageError>(v@),
            Err(e) => reassembly(*record, buffers_view(chunk_data@)) == Err::<Seq<u8>, StorageError>(e),
        },
{
    let ghost pieces = buffers_view(chunk_data@);
    let n = chunk_data.len();
    let mut chunks: Vec<ChunkInfo> = Vec::new();
    let mut offset: u64 = 0;
    let mut i: usize = 0;
    proof {
        assert(pieces.subrange(0, 0) =~= Seq::<Seq<u8>>::empty());
    }
    while i < n
        invariant
            n == chunk_data@.len(),
            n == record.chunk_ids@.len(),
            n <= 0x1_0000_0000,
            pieces == buffers_view(chunk_data@),
            pieces.flatten().len() <= u64::MAX,
            i <= n,
            chunks@.len() == i,
            offset == pieces.subrange(0, i as int).flatten().len(),
            forall|k: int| 0 <= k < i ==> #[trigger] chunks@[k].index == k && chunks@[k].size == pieces[k].len()
                && chunks@[k].hash@ == sha256_hex(pieces[k]),
        decreases n - i,
    {
        let data = &chunk_data[i];
        let hash = sha256_hex_of(data.as_slice());
        proof {
            assert(pieces[i as int] == data@);
            assert(pieces.subrange(0, i + 1) =~= pieces.subrange(0, i as int).push(pieces[i as int]));
            pieces.subrange(0, i as int).lemma_flatten_push(pieces[i as int]);
            lemma_prefix_flatten_len(pieces, i + 1);
        }
        let info = ChunkInfo {
            chunk_id: record.chunk_ids[i].clone(),
            hash,
            size: data.len() as u64,
            index: i as u32,
            offset,
        };
        chunks.push(info);
        offset = offset + data.len() as u64;
        i = i + 1;
    }
    let metadata = ChunkerFileMetadata {
        file_id: file_id.to_owned(),
        filename: record.name.clone(),
        total_size: record.size,
        file_hash: record.file_hash.clone(),
        chunks,
        chunk_size,
        mime_type: record.mime_type.clone(),
        created_at: record.created_at,
    };
    proof {
        lemma_no_problem(metadata.chunks@, pieces, 0);
    }
    let reconstructed = match chunker.reconstruct_file(&metadata, chunk_data) {
        Ok(v) => v,
        Err(e) => {
            return Err(StorageError::Reconstruction(e));
        },
    };
    let computed = sha256_hex_of(reconstructed.as_slice());
    if computed != record.file_hash {
        return Err(StorageError::FileHashMismatch);
    }
    Ok(reconstructed)
}

/// A prefix of the pieces is no longer than all of them.
proof fn lemma_prefix_flatten_len(pieces: Seq<Seq<u8>>, k: int)
    requires
        0 <= k <= pieces.len(),
    ensures
        pieces.subrange(0, k).flatten().len() <= pieces.flatten().len(),
{
    let a = pieces.subrange(0, k);
    let b = pieces.subrange(k, pieces.len() as int);
    assert(a + b =~= pieces);
    vstd::seq_lib::lemma_flatten_concat(a, b);
}

/// Chunk records built from the buffers themselves show no problem.
proof fn lemma_no_problem(chunks: Seq<ChunkInfo>, pieces: Seq<Seq<u8>>, from: nat)
    requires
        chunks.len() == pieces.len(),
        forall|k: int| 0 <= k < chunks.len() ==> #[trigger] chunks[k].index == k && chunks[k].size == pieces[k].len()
            && chunks[k].hash@ == sha256_hex(pieces[k]),
    ensures
        crate::storage::file_chunker::first_problem(chunks, pieces, from) is None,
    decreases chunks.len() - from,
{
    if from < chunks.len() {
        assert(chunks[from as int].index == from);
        lemma_no_problem(chunks, pieces, from + 1);
    }
}

/// Storing a file and fetching it back gives the file: when the chunks fetched are the
/// pieces that chunking the file with chunk size `cs` produced, in order, and the record
/// holds the file's SHA-256, reassembly returns the file.
pub proof fn lemma_store_then_retrieve(record: StoredFileMetadata, data: Seq<u8>, cs: nat)
    requires
        cs > 0,
        record.file_hash@ == sha256_hex(data),
    ensures
        reassembly(record, pieces_of(data, cs)) == Ok::<Seq<u8>, StorageError>(data),
{
    let pieces = pieces_of(data, cs);
    lemma_pieces_flatten(data, cs, piece_count(data.len(), cs));
    lemma_piece_count_covers(data.len(), cs);
    assert(pieces.subrange(0, pieces.len() as int) =~= pieces);
    assert(data.subrange(0, data.len() as int) =~= data);
}

} // verus!
