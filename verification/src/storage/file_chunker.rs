//! Splitting files into fixed-size, content-addressed chunks and reassembling them.
//!
//! Every chunk is named by the SHA-256 of its bytes, and the whole file by the SHA-256 of
//! its content; reassembly checks both before handing the bytes back.

use vstd::prelude::*;
use crate::digest::{sha256_hex, hex_lower, sha256_digest, hex_encode, sha256_hex_of, lemma_hex_lower_len, lemma_hex_lower_concat, Sha256Stream, sha256_stream_input};
use crate::bytes::copy_range;
use crate::clock::unix_time_secs;

verus! {

/// Default chunk size: 1 MiB.
pub const DEFAULT_CHUNK_SIZE: usize = 1048576;

/// Smallest accepted chunk size: 64 KiB.
pub const MIN_CHUNK_SIZE: usize = 65536;

/// Largest accepted chunk size: 16 MiB.
pub const MAX_CHUNK_SIZE: usize = 16777216;

/// Metadata for a file chunk.
#[derive(Clone, Debug, PartialEq, Eq)]
pub struct ChunkInfo {
    /// Unique identifier for the chunk
    pub chunk_id: String,
    /// SHA-256 hash of chunk content for integrity verification
    pub hash: String,
    /// Size of the chunk in bytes
    pub size: u64,
    /// Position of this chunk within the original file
    pub index: u32,
    /// Offset within the original file
    pub offset: u64,
}

/// Metadata for a chunked file.
#[derive(Clone, Debug)]
pub struct FileMetadata {
    /// Original file identifier
    pub file_id: String,
    /// Original filename (for user convenience)
    pub filename: String,
    /// Total size of original file
    pub total_size: u64,
    /// SHA-256 hash of complete file for integrity verification
    pub file_hash: String,
    /// Ordered list of chunks
    pub chunks: Vec<ChunkInfo>,
    /// Chunk size used for this file
    pub chunk_size: usize,
    /// MIME type if detected
    pub mime_type: Option<String>,
    /// Creation timestamp (seconds since the Unix epoch)
    pub created_at: u64,
}

/// Why the chunker refused a request.
#[derive(Clone, Debug, PartialEq, Eq)]
pub enum ChunkerError {
    /// The requested chunk size lies outside `[MIN_CHUNK_SIZE, MAX_CHUNK_SIZE]`.
    ChunkSizeOutOfBounds { chunk_size: usize },
    /// The system clock reads a time before the Unix epoch.
    ClockBeforeEpoch,
    /// The number of chunk buffers differs from the number of chunks in the metadata.
    ChunkCountMismatch { provided: usize, expected: usize },
    /// A chunk's recorded index differs from its position.
    ChunkOutOfOrder { position: usize },
    /// A chunk buffer's length differs from the recorded size.
    ChunkSizeMismatch { position: usize },
    /// A chunk buffer's hash differs from the recorded hash.
    ChunkHashMismatch { position: usize },
    /// The reassembled file's hash differs from the recorded file hash.
    FileHashMismatch,
}

/// The identifier of a chunk: `chunk_` followed by the first 16 hex digits of its hash.
pub open spec fn chunk_id_for(piece: Seq<u8>) -> Seq<char> {
    "chunk_"@ + sha256_hex(piece).subrange(0, 16)
}

/// Bytes `[k*cs, min((k+1)*cs, len))` of `data`: chunk `k` of a split into pieces of `cs` bytes.
pub open spec fn piece_of(data: Seq<u8>, cs: nat, k: nat) -> Seq<u8> {
    let start = k * cs;
    let end = if (k + 1) * cs <= data.len() { (k + 1) * cs } else { data.len() };
    data.subrange(start as int, end as int)
}

/// Number of chunks of a split into pieces of `cs` bytes (the last may be shorter).
pub open spec fn piece_count(len: nat, cs: nat) -> nat {
    if len % cs == 0 {
        len / cs
    } else {
        len / cs + 1
    }
}

/// The pieces of a split of `data` into chunks of `cs` bytes, in order.
pub open spec fn pieces_of(data: Seq<u8>, cs: nat) -> Seq<Seq<u8>> {
    Seq::new(piece_count(data.len(), cs), |k: int| piece_of(data, cs, k as nat))
}

/// An optional string, by its characters.
pub open spec fn opt_chars(o: Option<String>) -> Option<Seq<char>> {
    match o {
        Some(s) => Some(s@),
        None => None,
    }
}

/// The byte sequences held by a list of buffers.
pub open spec fn buffers_view(v: Seq<Vec<u8>>) -> Seq<Seq<u8>> {
    v.map_values(|b: Vec<u8>| b@)
}

/// `m` is the metadata that chunking `data` into pieces of `cs` bytes records, at time
/// `created_at`, for a file with the given identifier and name.
pub open spec fn describes(
    m: FileMetadata,
    cs: nat,
    data: Seq<u8>,
    file_id: Seq<char>,
    filename: Seq<char>,
    created_at: u64,
) -> bool {
    &&& m.file_id@ == file_id
    &&& m.filename@ == filename
    &&& m.total_size == data.len()
    &&& m.file_hash@ == sha256_hex(data)
    &&& m.chunks@.len() == piece_count(data.len(), cs)
    &&& forall|k: int| 0 <= k < m.chunks@.len() ==> chunk_info_ok(#[trigger] m.chunks@[k], data, cs, k as nat)
    &&& m.chunk_size == cs
    &&& opt_chars(m.mime_type) == (if data.len() == 0 { None } else { mime_for_filename(filename) })
    &&& m.created_at == created_at
}

/// What is wrong with chunk buffer `data` at position `i` of the metadata, checked in the
/// order index, size, hash; `None` when nothing is.
pub open spec fn chunk_problem(c: ChunkInfo, data: Seq<u8>, i: int) -> Option<ChunkerError> {
    if c.index as int != i {
        Some(ChunkerError::ChunkOutOfOrder { position: i as usize })
    } else if data.len() != c.size as int {
        Some(ChunkerError::ChunkSizeMismatch { position: i as usize })
    } else if sha256_hex(data) != c.hash@ {
        Some(ChunkerError::ChunkHashMismatch { position: i as usize })
    } else {
        None
    }
}

/// The problem of the first chunk at or after position `from` that has one.
pub open spec fn first_problem(chunks: Seq<ChunkInfo>, pieces: Seq<Seq<u8>>, from: nat) -> Option<ChunkerError>
    decreases chunks.len() - from,
{
    if from >= chunks.len() {
        None
    } else {
        match chunk_problem(chunks[from as int], pieces[from as int], from as int) {
            Some(e) => Some(e),
            None => first_problem(chunks, pieces, from + 1),
        }
    }
}

/// What reassembling `pieces` under metadata `m` gives: the concatenated bytes when every
/// check passes, else the error of the first failing check.
pub open spec fn reconstruction(m: FileMetadata, pieces: Seq<Seq<u8>>) -> Result<Seq<u8>, ChunkerError> {
    if pieces.len() != m.chunks@.len() {
        Err(ChunkerError::ChunkCountMismatch { provided: pieces.len() as usize, expected: m.chunks@.len() as usize })
    } else {
        match first_problem(m.chunks@, pieces, 0) {
            Some(e) => Err(e),
            None => if sha256_hex(pieces.flatten()) != m.file_hash@ {
                Err(ChunkerError::FileHashMismatch)
            } else {
                Ok(pieces.flatten())
            },
        }
    }
}

/// Chunk `k` as `chunk_bytes` describes it.
pub open spec fn chunk_info_ok(c: ChunkInfo, data: Seq<u8>, cs: nat, k: nat) -> bool {
    let piece = piece_of(data, cs, k);
    &&& c.chunk_id@ == chunk_id_for(piece)
    &&& c.hash@ == sha256_hex(piece)
    &&& c.size == piece.len()
    &&& c.index == k as u32
    &&& c.offset == (k * cs) as u64
}

/// Two chunk records that agree in every field (strings by their characters).
pub open spec fn same_chunk(a: ChunkInfo, b: ChunkInfo) -> bool {
    &&& a.chunk_id@ == b.chunk_id@
    &&& a.hash@ == b.hash@
    &&& a.size == b.size
    &&& a.index == b.index
    &&& a.offset == b.offset
}

/// ASCII lowercase of a character sequence (other characters unchanged).
pub open spec fn ascii_lower(s: Seq<char>) -> Seq<char> {
    s.map_values(|c: char| if 'A' <= c && c <= 'Z' { ((c as u32) + 32) as char } else { c })
}

/// Index of the last occurrence of `c` in `s`, or -1.
pub open spec fn last_index_of(s: Seq<char>, c: char) -> int
    decreases s.len(),
{
    if s.len() == 0 {
        -1
    } else if s.last() == c {
        s.len() - 1
    } else {
        last_index_of(s.drop_last(), c)
    }
}

/// The final component of a `/`-separated path, as `Path::file_name` gives it: trailing
/// separators and `.` components are skipped, and a final `..` has none.
pub open spec fn file_name_of(p: Seq<char>) -> Option<Seq<char>>
    decreases p.len(),
{
    let k = last_index_of(p, '/');
    proof {
        lemma_last_index_bounds(p, '/');
    }
    let seg = p.subrange(k + 1, p.len() as int);
    if seg.len() == 0 || seg == "."@ {
        if k < 0 {
            None
        } else {
            file_name_of(p.subrange(0, k))
        }
    } else if seg == ".."@ {
        None
    } else {
        Some(seg)
    }
}

/// The extension of a file name, as `Path::extension` gives it: what follows the last `.`,
/// unless there is none or it is the first character.
pub open spec fn extension_of(name: Seq<char>) -> Option<Seq<char>> {
    let k = last_index_of(name, '.');
    if k <= 0 {
        None
    } else {
        Some(name.subrange(k + 1, name.len() as int))
    }
}

/// The MIME type recorded for an extension, compared without regard to ASCII case.
pub open spec fn mime_for_extension(e: Seq<char>) -> Option<Seq<char>> {
    let l = ascii_lower(e);
    if l == "txt"@ || l == "md"@ {
        Some("text/plain"@)
    } else if l == "html"@ || l == "htm"@ {
        Some("text/html"@)
    } else if l == "json"@ {
        Some("application/json"@)
    } else if l == "pdf"@ {
        Some("application/pdf"@)
    } else if l == "jpg"@ || l == "jpeg"@ {
        Some("image/jpeg"@)
    } else if l == "png"@ {
        Some("image/png"@)
    } else if l == "gif"@ {
        Some("image/gif"@)
    } else if l == "zip"@ {
        Some("application/zip"@)
    } else if l == "tar"@ {
        Some("application/x-tar"@)
    } else if l == "gz"@ {
        Some("application/gzip"@)
    } else {
        None
    }
}

/// The extension of the final component of a path, as `Path::extension` gives it.
pub open spec fn path_extension(p: Seq<char>) -> Option<Seq<char>> {
    match file_name_of(p) {
        None => None,
        Some(name) => extension_of(name),
    }
}

/// The MIME type detected from a file name's extension.
pub open spec fn mime_for_filename(filename: Seq<char>) -> Option<Seq<char>> {
    match path_extension(filename) {
        None => None,
        Some(e) => mime_for_extension(e),
    }
}

/// File chunking engine.
pub struct FileChunker {
    chunk_size: usize,
}

impl FileChunker {
    /// The chunk size always lies within the accepted bounds.
    #[verifier::type_invariant]
    spec fn bounded(self) -> bool {
        MIN_CHUNK_SIZE <= self.chunk_size <= MAX_CHUNK_SIZE
    }

    /// The chunk size of this chunker.
    pub closed spec fn spec_chunk_size(self) -> usize {
        self.chunk_size
    }

    /// The chunk size of this chunker.
    pub fn chunk_size(&self) -> (s: usize)
        ensures
            s == self.spec_chunk_size(),
            MIN_CHUNK_SIZE <= s <= MAX_CHUNK_SIZE,
    {
        proof {
            use_type_invariant(self);
        }
        self.chunk_size
    }

    /// Create a new FileChunker with specified chunk size (1 MiB when none is given);
    /// sizes outside `[64 KiB, 16 MiB]` are refused.
    pub fn new(chunk_size: Option<usize>) -> (r: Result<Self, ChunkerError>)
        ensures
            ({
                let size = match chunk_size {
                    Some(s) => s,
                    None => DEFAULT_CHUNK_SIZE,
                };
                if MIN_CHUNK_SIZE <= size <= MAX_CHUNK_SIZE {
                    r matches Ok(c) && c.spec_chunk_size() == size
                } else {
                    r == Err::<Self, ChunkerError>(ChunkerError::ChunkSizeOutOfBounds { chunk_size: size })
                }
            }),
    {
        let chunk_size = match chunk_size {
            Some(s) => s,
            None => DEFAULT_CHUNK_SIZE,
        };
        if chunk_size < MIN_CHUNK_SIZE || chunk_size > MAX_CHUNK_SIZE {
            return Err(ChunkerError::ChunkSizeOutOfBounds { chunk_size });
        }
        Ok(Self { chunk_size })
    }

    /// Create default FileChunker with 1MB chunks
    pub fn default() -> (c: Self)
        ensures
            c.spec_chunk_size() == DEFAULT_CHUNK_SIZE,
    {
        Self { chunk_size: DEFAULT_CHUNK_SIZE }
    }

    /// Calculate SHA-256 hash of chunk data, in lowercase hexadecimal.
    pub fn calculate_chunk_hash(&self, data: &[u8]) -> (h: String)
        ensures
            h@ == sha256_hex(data@),
    {
        sha256_hex_of(data)
    }

    /// Calculate hash for empty file (consistent across all empty files)
    pub fn calculate_empty_file_hash(&self) -> (h: String)
        ensures
            h@ == sha256_hex(Seq::<u8>::empty()),
    {
        let empty: Vec<u8> = Vec::new();
        sha256_hex_of(empty.as_slice())
    }

    /// Simple MIME type detection based on file extension.
    pub fn detect_mime_type(&self, filename: &str) -> (m: Option<String>)
        ensures
            opt_chars(m) == mime_for_filename(filename@),
    {
        detect_mime(filename)
    }
}


impl FileChunker {
    /// Chunk data from a byte slice, stamping the metadata with `created_at` (seconds
    /// since the Unix epoch).
    pub fn chunk_bytes_at(&self, data: &[u8], file_id: String, filename: String, created_at: u64) -> (m: FileMetadata)
        ensures
            describes(m, self.spec_chunk_size() as nat, data@, file_id@, filename@, created_at),
    {
        proof {
            use_type_invariant(self);
        }
        let cs = self.chunk_size;
        let len = data.len();
        let file_hash = sha256_hex_of(data);
        if len == 0 {
            assert(0nat % (cs as nat) == 0 && 0nat / (cs as nat) == 0) by (nonlinear_arith)
                requires
                    cs > 0,
            ;
            return FileMetadata {
                file_id,
                filename,
                total_size: 0,
                file_hash,
                chunks: Vec::new(),
                chunk_size: cs,
                mime_type: None,
                created_at,
            };
        }
        proof {
            vstd::arithmetic::div_mod::lemma_div_decreases(len as int, cs as int);
        }
        let count: usize = if len % cs == 0 {
            len / cs
        } else {
            len / cs + 1
        };
        let mut chunks: Vec<ChunkInfo> = Vec::new();
        let mut k: usize = 0;
        while k < count
            invariant
                MIN_CHUNK_SIZE <= cs <= MAX_CHUNK_SIZE,
                len == data@.len(),
                count == piece_count(len as nat, cs as nat),
                k <= count,
                chunks@.len() == k,
                forall|j: int| 0 <= j < k ==> chunk_info_ok(#[trigger] chunks@[j], data@, cs as nat, j as nat),
            decreases count - k,
        {
            proof {
                lemma_piece_start(len as nat, cs as nat, k as nat);
            }
            let start = k * cs;
            let end = if len - start > cs {
                start + cs
            } else {
                len
            };
            let piece = copy_range(data, start, end);
            proof {
                assert(piece@ == piece_of(data@, cs as nat, k as nat));
            }
            let info = describe_piece(piece.as_slice(), #[verifier::truncate] (k as u32), start as u64);
            chunks.push(info);
            k = k + 1;
        }
        let mime_type = self.detect_mime_type(filename.as_str());
        FileMetadata {
            file_id,
            filename,
            total_size: len as u64,
            file_hash,
            chunks,
            chunk_size: cs,
            mime_type,
            created_at,
        }
    }

    /// Chunk data from a byte slice. The metadata is stamped with the current time; the
    /// request fails only when the system clock reads a time before the Unix epoch.
    pub fn chunk_bytes(&self, data: &[u8], file_id: String, filename: String) -> (r: Result<FileMetadata, ChunkerError>)
        ensures
            match r {
                Ok(m) => describes(m, self.spec_chunk_size() as nat, data@, file_id@, filename@, m.created_at),
                Err(e) => e == ChunkerError::ClockBeforeEpoch,
            },
    {
        match unix_time_secs() {
            Some(now) => Ok(self.chunk_bytes_at(data, file_id, filename, now)),
            None => Err(ChunkerError::ClockBeforeEpoch),
        }
    }

    /// Reconstruct file data from chunks: checks the number of buffers, then each chunk's
    /// index, size and hash in order, then the hash of the reassembled file.
    pub fn reconstruct_file(&self, metadata: &FileMetadata, chunk_data: Vec<Vec<u8>>) -> (r: Result<Vec<u8>, ChunkerError>)
        ensures
            match r {
                Ok(v) => reconstruction(*metadata, buffers_view(chunk_data@)) == Ok::<Seq<u8>, ChunkerError>(v@),
                Err(e) => reconstruction(*metadata, buffers_view(chunk_data@)) == Err::<Seq<u8>, ChunkerError>(e),
            },
    {
        let n = metadata.chunks.len();
        if chunk_data.len() != n {
            return Err(ChunkerError::ChunkCountMismatch { provided: chunk_data.len(), expected: n });
        }
        let ghost pieces = buffers_view(chunk_data@);
        let mut i: usize = 0;
        while i < n
            invariant
                n == metadata.chunks@.len(),
                chunk_data@.len() == n,
                pieces == buffers_view(chunk_data@),
                i <= n,
                first_problem(metadata.chunks@, pieces, 0) == first_problem(metadata.chunks@, pieces, i as nat),
            decreases n - i,
        {
            let info = &metadata.chunks[i];
            let data = &chunk_data[i];
            proof {
                assert(pieces[i as int] == data@);
            }
            if info.index as usize != i {
                return Err(ChunkerError::ChunkOutOfOrder { position: i });
            }
            if data.len() as u64 != info.size {
                return Err(ChunkerError::ChunkSizeMismatch { position: i });
            }
            let h = self.calculate_chunk_hash(data.as_slice());
            if h != info.hash {
                return Err(ChunkerError::ChunkHashMismatch { position: i });
            }
            i = i + 1;
        }
        let mut out: Vec<u8> = Vec::new();
        let mut j: usize = 0;
        proof {
            assert(pieces.subrange(0, 0) =~= Seq::<Seq<u8>>::empty());
        }
        while j < n
            invariant
                chunk_data@.len() == n,
                pieces == buffers_view(chunk_data@),
                j <= n,
                out@ == pieces.subrange(0, j as int).flatten(),
            decreases n - j,
        {
            let data = &chunk_data[j];
            let mut t: usize = 0;
            let ghost before = out@;
            while t < data.len()
                invariant
                    t <= data@.len(),
                    out@ == before + data@.subrange(0, t as int),
                decreases data@.len() - t,
            {
                out.push(data[t]);
                t = t + 1;
                proof {
                    assert(out@ =~= before + data@.subrange(0, t as int));
                }
            }
            proof {
                assert(data@.subrange(0, data@.len() as int) =~= data@);
                assert(pieces.subrange(0, j + 1) =~= pieces.subrange(0, j as int).push(pieces[j as int]));
                pieces.subrange(0, j as int).lemma_flatten_push(pieces[j as int]);
            }
            j = j + 1;
        }
        proof {
            assert(pieces.subrange(0, n as int) =~= pieces);
        }
        let h = sha256_hex_of(out.as_slice());
        if h != metadata.file_hash {
            return Err(ChunkerError::FileHashMismatch);
        }
        Ok(out)
    }
}

/// Where piece `k` of a stream of pieces starts: the total length of the pieces before it.
pub open spec fn stream_offset(pieces: Seq<Seq<u8>>, k: int) -> nat {
    pieces.subrange(0, k).flatten().len()
}

/// `c` records `piece` as chunk `k`, starting at byte `offset` of the file.
pub open spec fn records_piece(c: ChunkInfo, piece: Seq<u8>, k: nat, offset: nat) -> bool {
    &&& c.chunk_id@ == chunk_id_for(piece)
    &&& c.hash@ == sha256_hex(piece)
    &&& c.size == piece.len()
    &&& c.index == k as u32
    &&& c.offset == offset
}

/// `m` is the metadata that chunking a file read as the given pieces records: a file whose
/// size was measured as `total_size` (zero gives the metadata of an empty file, whatever
/// was read), stamped with `created_at`.
pub open spec fn describes_stream(
    m: FileMetadata,
    cs: nat,
    pieces: Seq<Seq<u8>>,
    file_id: Seq<char>,
    filename: Seq<char>,
    total_size: u64,
    created_at: u64,
) -> bool {
    &&& m.file_id@ == file_id
    &&& m.filename@ == filename
    &&& m.total_size == total_size
    &&& m.chunk_size == cs
    &&& m.created_at == created_at
    &&& if total_size == 0 {
        &&& m.file_hash@ == sha256_hex(Seq::<u8>::empty())
        &&& m.chunks@.len() == 0
        &&& m.mime_type is None
    } else {
        &&& m.file_hash@ == sha256_hex(pieces.flatten())
        &&& m.chunks@.len() == pieces.len()
        &&& forall|k: int|
            0 <= k < pieces.len() ==> records_piece(
                #[trigger] m.chunks@[k],
                pieces[k],
                k as nat,
                stream_offset(pieces, k),
            )
        &&& opt_chars(m.mime_type) == mime_for_filename(filename)
    }
}

/// A file being chunked as it is read, piece by piece: the reader hands each buffer it
/// fills to `absorb`, and `finish` builds the metadata.
pub struct ChunkingSession {
    chunk_size: usize,
    file_id: String,
    filename: String,
    total_size: u64,
    chunks: Vec<ChunkInfo>,
    hasher: Sha256Stream,
    total_read: u64,
    pieces: Ghost<Seq<Seq<u8>>>,
}

impl ChunkingSession {
    /// The pieces absorbed so far, in order.
    pub closed spec fn spec_pieces(self) -> Seq<Seq<u8>> {
        self.pieces@
    }

    /// The chunk size of the chunker that started the session.
    pub closed spec fn spec_chunk_size(self) -> usize {
        self.chunk_size
    }

    /// The identifier of the file.
    pub closed spec fn spec_file_id(self) -> Seq<char> {
        self.file_id@
    }

    /// The name of the file.
    pub closed spec fn spec_filename(self) -> Seq<char> {
        self.filename@
    }

    /// The size of the file as measured before reading.
    pub closed spec fn spec_total_size(self) -> u64 {
        self.total_size
    }

    /// The chunks recorded so far describe the pieces absorbed so far, and the file hash
    /// has been fed exactly those pieces.
    pub closed spec fn wf(self) -> bool {
        &&& MIN_CHUNK_SIZE <= self.chunk_size <= MAX_CHUNK_SIZE
        &&& self.chunks@.len() == self.pieces@.len()
        &&& forall|k: int|
            0 <= k < self.pieces@.len() ==> records_piece(
                #[trigger] self.chunks@[k],
                self.pieces@[k],
                k as nat,
                stream_offset(self.pieces@, k),
            )
        &&& sha256_stream_input(self.hasher) == self.pieces@.flatten()
        &&& self.total_read == self.pieces@.flatten().len()
    }

    /// The number of bytes to ask the reader for at each step: the chunk size.
    pub fn read_size(&self) -> (n: usize)
        requires
            self.wf(),
        ensures
            n == self.spec_chunk_size(),
            MIN_CHUNK_SIZE <= n <= MAX_CHUNK_SIZE,
    {
        self.chunk_size
    }

    /// Whether the file is to be read at all: a file measured as empty is not.
    pub fn expects_data(&self) -> (b: bool)
        ensures
            b == (self.spec_total_size() > 0),
    {
        self.total_size > 0
    }

    /// The number of pieces absorbed so far.
    pub fn chunk_count(&self) -> (n: usize)
        requires
            self.wf(),
        ensures
            n == self.spec_pieces().len(),
    {
        self.chunks.len()
    }

    /// The number of bytes absorbed so far.
    pub fn bytes_read(&self) -> (n: u64)
        requires
            self.wf(),
        ensures
            n == self.spec_pieces().flatten().len(),
    {
        self.total_read
    }

    /// Records the next piece read from the file as the next chunk and feeds it to the
    /// file hash. Chunk indices are `u32` and byte counts `u64`: neither may overflow.
    pub fn absorb(&mut self, piece: &[u8])
        requires
            old(self).wf(),
            old(self).spec_pieces().len() < 0xffff_ffff,
            old(self).spec_pieces().flatten().len() + piece@.len() <= u64::MAX,
        ensures
            final(self).wf(),
            final(self).spec_pieces() == old(self).spec_pieces().push(piece@),
            final(self).spec_chunk_size() == old(self).spec_chunk_size(),
            final(self).spec_file_id() == old(self).spec_file_id(),
            final(self).spec_filename() == old(self).spec_filename(),
            final(self).spec_total_size() == old(self).spec_total_size(),
    {
        let ghost old_pieces = self.pieces@;
        let index = self.chunks.len() as u32;
        let info = describe_piece(piece, index, self.total_read);
        self.chunks.push(info);
        self.hasher.update(piece);
        self.total_read = self.total_read + piece.len() as u64;
        let ghost new_pieces = old_pieces.push(piece@);
        proof {
            old_pieces.lemma_flatten_push(piece@);
            assert(new_pieces.subrange(0, old_pieces.len() as int) =~= old_pieces);
            assert forall|k: int| 0 <= k < old_pieces.len() implies new_pieces.subrange(0, k) =~= old_pieces.subrange(0, k) by {}
        }
        self.pieces = Ghost(new_pieces);
    }

    /// The metadata of the file read: stamped with `created_at` (seconds since the Unix
    /// epoch); a file measured as empty gets the metadata of an empty file.
    pub fn finish(self, created_at: u64) -> (m: FileMetadata)
        requires
            self.wf(),
        ensures
            describes_stream(
                m,
                self.spec_chunk_size() as nat,
                self.spec_pieces(),
                self.spec_file_id(),
                self.spec_filename(),
                self.spec_total_size(),
                created_at,
            ),
    {
        let ghost old_self = self;
        let cs = self.chunk_size;
        if self.total_size == 0 {
            let empty: Vec<u8> = Vec::new();
            let file_hash = sha256_hex_of(empty.as_slice());
            return FileMetadata {
                file_id: self.file_id,
                filename: self.filename,
                total_size: 0,
                file_hash,
                chunks: Vec::new(),
                chunk_size: cs,
                mime_type: None,
                created_at,
            };
        }
        let digest = self.hasher.finalize();
        let file_hash = hex_encode(digest.as_slice());
        let mime_type = detect_mime(self.filename.as_str());
        FileMetadata {
            file_id: self.file_id,
            filename: self.filename,
            total_size: self.total_size,
            file_hash,
            chunks: self.chunks,
            chunk_size: cs,
            mime_type,
            created_at,
        }
    }

    /// The metadata of the file read, stamped with the current time; fails only when the
    /// system clock reads a time before the Unix epoch.
    pub fn finish_now(self) -> (r: Result<FileMetadata, ChunkerError>)
        requires
            self.wf(),
        ensures
            match r {
                Ok(m) => describes_stream(
                    m,
                    self.spec_chunk_size() as nat,
                    self.spec_pieces(),
                    self.spec_file_id(),
                    self.spec_filename(),
                    self.spec_total_size(),
                    m.created_at,
                ),
                Err(e) => e == ChunkerError::ClockBeforeEpoch,
            },
    {
        match unix_time_secs() {
            Some(now) => Ok(self.finish(now)),
            None => Err(ChunkerError::ClockBeforeEpoch),
        }
    }
}

impl FileChunker {
    /// Starts chunking a file read piece by piece; `total_size` is the file's size as
    /// measured before reading.
    pub fn start_chunking(&self, file_id: String, filename: String, total_size: u64) -> (s: ChunkingSession)
        ensures
            s.wf(),
            s.spec_pieces() == Seq::<Seq<u8>>::empty(),
            s.spec_chunk_size() == self.spec_chunk_size(),
            s.spec_file_id() == file_id@,
            s.spec_filename() == filename@,
            s.spec_total_size() == total_size,
    {
        proof {
            use_type_invariant(self);
        }
        let s = ChunkingSession {
            chunk_size: self.chunk_size,
            file_id,
            filename,
            total_size,
            chunks: Vec::new(),
            hasher: Sha256Stream::new(),
            total_read: 0,
            pieces: Ghost(Seq::empty()),
        };
        proof {
            assert(Seq::<Seq<u8>>::empty().flatten() =~= Seq::<u8>::empty());
        }
        s
    }
}

/// The metadata of one chunk: its content identifier and hash, its size, index and offset.
fn describe_piece(piece: &[u8], index: u32, offset: u64) -> (c: ChunkInfo)
    ensures
        c.chunk_id@ == chunk_id_for(piece@),
        c.hash@ == sha256_hex(piece@),
        c.size == piece@.len(),
        c.index == index,
        c.offset == offset,
{
    let d = sha256_digest(piece);
    let hash = hex_encode(d.as_slice());
    let head = copy_range(d.as_slice(), 0, 8);
    let short = hex_encode(head.as_slice());
    proof {
        let tail = d@.subrange(8, 32);
        assert(d@ =~= head@ + tail);
        lemma_hex_lower_concat(head@, tail);
        lemma_hex_lower_len(head@);
        assert(hex_lower(d@).subrange(0, 16) =~= hex_lower(head@));
    }
    let chunk_id = "chunk_".to_owned().concat(short.as_str());
    ChunkInfo { chunk_id, hash, size: piece.len() as u64, index, offset }
}

/// Chunk `k` of a split starts inside the data, and the next chunk starts `cs` bytes later.
pub proof fn lemma_piece_start(len: nat, cs: nat, k: nat)
    requires
        cs > 0,
        k < piece_count(len, cs),
    ensures
        k * cs < len,
        (k + 1) * cs == k * cs + cs,
{
    vstd::arithmetic::div_mod::lemma_fundamental_div_mod(len as int, cs as int);
    let q = len / cs;
    let r = len % cs;
    assert((k + 1) * cs == k * cs + cs) by (nonlinear_arith);
    if r == 0 {
        assert((k + 1) * cs <= q * cs) by (nonlinear_arith)
            requires
                k + 1 <= q,
        ;
        assert(q * cs == cs * q) by (nonlinear_arith);
    } else {
        assert(k * cs <= q * cs) by (nonlinear_arith)
            requires
                k <= q,
        ;
        assert(q * cs == cs * q) by (nonlinear_arith);
    }
}

/// Chunking then reassembling gives the file back: the pieces of a split of `data`,
/// handed to reassembly under the metadata that chunking `data` recorded, pass every check
/// and concatenate to `data`. Chunk indices are recorded as `u32`, so the law holds for
/// files of at most 2^32 chunks.
pub proof fn lemma_chunk_then_reconstruct(
    m: FileMetadata,
    cs: nat,
    data: Seq<u8>,
    file_id: Seq<char>,
    filename: Seq<char>,
    created_at: u64,
)
    requires
        MIN_CHUNK_SIZE <= cs <= MAX_CHUNK_SIZE,
        describes(m, cs, data, file_id, filename, created_at),
        piece_count(data.len(), cs) <= 0x1_0000_0000,
    ensures
        reconstruction(m, pieces_of(data, cs)) == Ok::<Seq<u8>, ChunkerError>(data),
{
    let pieces = pieces_of(data, cs);
    lemma_no_problem_from(m, cs, data, file_id, filename, created_at, 0);
    lemma_pieces_flatten(data, cs, piece_count(data.len(), cs));
    lemma_piece_count_covers(data.len(), cs);
    assert(pieces.subrange(0, pieces.len() as int) =~= pieces);
    assert(data.subrange(0, data.len() as int) =~= data);
}

/// No chunk at or after position `from` has a problem when the buffers are the pieces of
/// the split that the metadata describes.
proof fn lemma_no_problem_from(
    m: FileMetadata,
    cs: nat,
    data: Seq<u8>,
    file_id: Seq<char>,
    filename: Seq<char>,
    created_at: u64,
    from: nat,
)
    requires
        MIN_CHUNK_SIZE <= cs <= MAX_CHUNK_SIZE,
        describes(m, cs, data, file_id, filename, created_at),
        piece_count(data.len(), cs) <= 0x1_0000_0000,
    ensures
        first_problem(m.chunks@, pieces_of(data, cs), from) is None,
    decreases m.chunks@.len() - from,
{
    if from < m.chunks@.len() {
        let c = m.chunks@[from as int];
        assert(chunk_info_ok(c, data, cs, from));
        assert(c.index == from as u32);
        assert((from as u32) as int == from);
        lemma_no_problem_from(m, cs, data, file_id, filename, created_at, from + 1);
    }
}

/// The first `k` pieces of a split concatenate to the first `min(k * cs, len)` bytes.
pub proof fn lemma_pieces_flatten(data: Seq<u8>, cs: nat, k: nat)
    requires
        cs > 0,
        k <= piece_count(data.len(), cs),
    ensures
        pieces_of(data, cs).subrange(0, k as int).flatten() == data.subrange(
            0,
            if k * cs <= data.len() { (k * cs) as int } else { data.len() as int },
        ),
    decreases k,
{
    let pieces = pieces_of(data, cs);
    if k == 0 {
        assert(pieces.subrange(0, 0) =~= Seq::<Seq<u8>>::empty());
        assert(data.subrange(0, 0) =~= Seq::<u8>::empty());
    } else {
        let j = (k - 1) as nat;
        lemma_pieces_flatten(data, cs, j);
        lemma_piece_start(data.len(), cs, j);
        assert(pieces.subrange(0, k as int) =~= pieces.subrange(0, j as int).push(pieces[j as int]));
        pieces.subrange(0, j as int).lemma_flatten_push(pieces[j as int]);
        assert(j * cs + cs == k * cs);
        let end = if k * cs <= data.len() { (k * cs) as int } else { data.len() as int };
        assert(data.subrange(0, (j * cs) as int) + data.subrange((j * cs) as int, end) =~= data.subrange(0, end));
    }
}

/// A split into `piece_count` pieces reaches the end of the data.
pub proof fn lemma_piece_count_covers(len: nat, cs: nat)
    requires
        cs > 0,
    ensures
        piece_count(len, cs) * cs >= len,
{
    vstd::arithmetic::div_mod::lemma_fundamental_div_mod(len as int, cs as int);
    let q = len / cs;
    let r = len % cs;
    assert(q * cs == cs * q) by (nonlinear_arith);
    assert((q + 1) * cs == q * cs + cs) by (nonlinear_arith);
}

/// The chunks that chunking records tile the file: each starts where the one before it
/// ends, the first at offset 0, and together they cover `total_size` bytes.
pub proof fn lemma_chunks_contiguous(
    m: FileMetadata,
    cs: nat,
    data: Seq<u8>,
    file_id: Seq<char>,
    filename: Seq<char>,
    created_at: u64,
    k: int,
)
    requires
        MIN_CHUNK_SIZE <= cs <= MAX_CHUNK_SIZE,
        describes(m, cs, data, file_id, filename, created_at),
        0 <= k < m.chunks@.len(),
    ensures
        k == 0 ==> m.chunks@[k].offset == 0,
        k + 1 < m.chunks@.len() ==> m.chunks@[k].offset + m.chunks@[k].size == m.chunks@[k + 1].offset,
        k + 1 == m.chunks@.len() ==> m.chunks@[k].offset + m.chunks@[k].size == m.total_size,
{
    let n = piece_count(data.len(), cs);
    assert(chunk_info_ok(m.chunks@[k], data, cs, k as nat));
    lemma_piece_start(data.len(), cs, k as nat);
    if k + 1 < n {
        assert(chunk_info_ok(m.chunks@[k + 1], data, cs, (k + 1) as nat));
        lemma_piece_start(data.len(), cs, (k + 1) as nat);
    }
    if k + 1 == n {
        lemma_piece_count_covers(data.len(), cs);
    }
    assert(0 * cs == 0);
}

/// Chunking a file as it is read agrees with chunking its bytes at once when every read
/// fills the buffer (the last one up to the end of the file) and the size measured before
/// reading is the file's length: same file hash, same chunks, same MIME type.
pub proof fn lemma_stream_matches_bytes(
    m_stream: FileMetadata,
    m_bytes: FileMetadata,
    cs: nat,
    data: Seq<u8>,
    file_id: Seq<char>,
    filename: Seq<char>,
    created_at: u64,
)
    requires
        MIN_CHUNK_SIZE <= cs <= MAX_CHUNK_SIZE,
        data.len() <= u64::MAX,
        describes_stream(m_stream, cs, pieces_of(data, cs), file_id, filename, data.len() as u64, created_at),
        describes(m_bytes, cs, data, file_id, filename, created_at),
    ensures
        m_stream.total_size == m_bytes.total_size,
        m_stream.file_hash@ == m_bytes.file_hash@,
        opt_chars(m_stream.mime_type) == opt_chars(m_bytes.mime_type),
        m_stream.chunks@.len() == m_bytes.chunks@.len(),
        forall|k: int| 0 <= k < m_stream.chunks@.len() ==> same_chunk(#[trigger] m_stream.chunks@[k], m_bytes.chunks@[k]),
{
    let pieces = pieces_of(data, cs);
    let n = piece_count(data.len(), cs);
    if data.len() == 0 {
        assert(data =~= Seq::<u8>::empty());
        assert(0nat % cs == 0 && 0nat / cs == 0) by (nonlinear_arith)
            requires
                cs > 0,
        ;
    } else {
        lemma_pieces_flatten(data, cs, n);
        lemma_piece_count_covers(data.len(), cs);
        assert(pieces.subrange(0, n as int) =~= pieces);
        assert(data.subrange(0, data.len() as int) =~= data);
        assert forall|k: int| 0 <= k < m_stream.chunks@.len() implies same_chunk(#[trigger] m_stream.chunks@[k], m_bytes.chunks@[k]) by {
            assert(records_piece(m_stream.chunks@[k], pieces[k], k as nat, stream_offset(pieces, k)));
            assert(chunk_info_ok(m_bytes.chunks@[k], data, cs, k as nat));
            lemma_piece_start(data.len(), cs, k as nat);
            lemma_pieces_flatten(data, cs, k as nat);
        }
    }
}

/// Chunking the same bytes twice with the same chunk size records the same file hash and
/// the same chunk list, whatever the file's identifier, name or time.
pub proof fn lemma_chunking_deterministic(
    m1: FileMetadata,
    m2: FileMetadata,
    cs: nat,
    data: Seq<u8>,
    id1: Seq<char>,
    id2: Seq<char>,
    name1: Seq<char>,
    name2: Seq<char>,
    t1: u64,
    t2: u64,
)
    requires
        MIN_CHUNK_SIZE <= cs <= MAX_CHUNK_SIZE,
        describes(m1, cs, data, id1, name1, t1),
        describes(m2, cs, data, id2, name2, t2),
    ensures
        m1.file_hash@ == m2.file_hash@,
        m1.chunks@.len() == m2.chunks@.len(),
        forall|k: int| 0 <= k < m1.chunks@.len() ==> same_chunk(#[trigger] m1.chunks@[k], m2.chunks@[k]),
{
    assert forall|k: int| 0 <= k < m1.chunks@.len() implies same_chunk(#[trigger] m1.chunks@[k], m2.chunks@[k]) by {
        assert(chunk_info_ok(m1.chunks@[k], data, cs, k as nat));
        assert(chunk_info_ok(m2.chunks@[k], data, cs, k as nat));
    }
}

/// The MIME type recorded for a file name's extension.
fn detect_mime(filename: &str) -> (m: Option<String>)
    ensures
        opt_chars(m) == mime_for_filename(filename@),
{
    match extension_chars(filename) {
        Some(ext) => mime_lookup(&ext),
        None => None,
    }
}

/// The extension of the final component of a path.
pub(crate) fn extension_chars(filename: &str) -> (r: Option<Vec<char>>)
    ensures
        match r {
            Some(e) => path_extension(filename@) == Some(e@),
            None => path_extension(filename@) is None,
        },
{
    let chars = chars_of(filename);
    let name = match file_name_range(&chars) {
        Some(range) => range,
        None => {
            return None;
        },
    };
    let (name_start, name_end) = name;
    let ghost name_seq = chars@.subrange(name_start as int, name_end as int);
    let dot = match last_index_in(&chars, name_start, name_end, '.') {
        Some(k) => k,
        None => {
            return None;
        },
    };
    if dot == name_start {
        return None;
    }
    let ext = copy_chars(&chars, dot + 1, name_end);
    proof {
        assert(ext@ =~= name_seq.subrange(dot - name_start + 1, name_seq.len() as int));
    }
    Some(ext)
}

/// The characters of a string slice.
fn chars_of(s: &str) -> (r: Vec<char>)
    ensures
        r@ == s@,
{
    let n = s.unicode_len();
    let mut r: Vec<char> = Vec::with_capacity(n);
    let mut i: usize = 0;
    while i < n
        invariant
            n == s@.len(),
            i <= n,
            r@ == s@.subrange(0, i as int),
        decreases n - i,
    {
        r.push(s.get_char(i));
        i = i + 1;
        proof {
            assert(r@ =~= s@.subrange(0, i as int));
        }
    }
    proof {
        assert(r@ =~= s@);
    }
    r
}

/// A copy of `v[start..end]`.
fn copy_chars(v: &Vec<char>, start: usize, end: usize) -> (r: Vec<char>)
    requires
        start <= end <= v@.len(),
    ensures
        r@ == v@.subrange(start as int, end as int),
{
    let mut r: Vec<char> = Vec::with_capacity(end - start);
    let mut k = start;
    while k < end
        invariant
            start <= k <= end <= v@.len(),
            r@ == v@.subrange(start as int, k as int),
        decreases end - k,
    {
        r.push(v[k]);
        k = k + 1;
        proof {
            assert(r@ =~= v@.subrange(start as int, k as int));
        }
    }
    r
}

/// Position of the last `c` in `v[start..end]`, relative to `v`.
fn last_index_in(v: &Vec<char>, start: usize, end: usize, c: char) -> (r: Option<usize>)
    requires
        start <= end <= v@.len(),
    ensures
        match r {
            Some(k) => start <= k < end && k - start == last_index_of(v@.subrange(start as int, end as int), c),
            None => last_index_of(v@.subrange(start as int, end as int), c) == -1,
        },
{
    let mut k = end;
    while k > start
        invariant
            start <= k <= end <= v@.len(),
            last_index_of(v@.subrange(start as int, end as int), c) == last_index_of(
                v@.subrange(start as int, k as int),
                c,
            ),
        decreases k,
    {
        proof {
            assert(v@.subrange(start as int, k as int).drop_last() =~= v@.subrange(start as int, k - 1));
        }
        if v[k - 1] == c {
            return Some(k - 1);
        }
        k = k - 1;
    }
    None
}

/// `last_index_of` lies within the sequence and, when it is not -1, points at `c`.
pub proof fn lemma_last_index_bounds(s: Seq<char>, c: char)
    ensures
        -1 <= last_index_of(s, c) < s.len(),
        last_index_of(s, c) >= 0 ==> s[last_index_of(s, c)] == c,
    decreases s.len(),
{
    if s.len() > 0 && s.last() != c {
        lemma_last_index_bounds(s.drop_last(), c);
    }
}

/// The range `[start, end)` of the final path component, as `file_name_of` describes it.
fn file_name_range(p: &Vec<char>) -> (r: Option<(usize, usize)>)
    ensures
        match r {
            Some((s, e)) => s <= e <= p@.len() && file_name_of(p@) == Some(p@.subrange(s as int, e as int)),
            None => file_name_of(p@) is None,
        },
{
    let mut end = p.len();
    proof {
        assert(p@.subrange(0, end as int) =~= p@);
    }
    loop
        invariant
            end <= p@.len(),
            file_name_of(p@) == file_name_of(p@.subrange(0, end as int)),
        decreases end,
    {
        let ghost q = p@.subrange(0, end as int);
        let slash = last_index_in(p, 0, end, '/');
        proof {
            assert(p@.subrange(0, end as int) == q);
            lemma_last_index_bounds(q, '/');
        }
        let seg_start: usize = match slash {
            Some(k) => k + 1,
            None => 0,
        };
        let ghost k = last_index_of(q, '/');
        assert(seg_start == k + 1);
        let seg_len = end - seg_start;
        let ghost seg = q.subrange(k + 1, q.len() as int);
        assert(seg =~= p@.subrange(seg_start as int, end as int));
        let is_dot = seg_len == 1 && p[seg_start] == '.';
        let is_dotdot = seg_len == 2 && p[seg_start] == '.' && p[seg_start + 1] == '.';
        proof {
            reveal_strlit(".");
            reveal_strlit("..");
            if is_dot {
                assert(seg =~= "."@);
            } else if seg == "."@ {
                assert(seg[0] == "."@[0]);
            }
            if is_dotdot {
                assert(seg =~= ".."@);
            } else if seg == ".."@ {
                assert(seg[0] == ".."@[0]);
                assert(seg[1] == ".."@[1]);
            }
        }
        if seg_len == 0 || is_dot {
            match slash {
                None => {
                    return None;
                },
                Some(kk) => {
                    proof {
                        assert(q.subrange(0, k) =~= p@.subrange(0, kk as int));
                    }
                    end = kk;
                },
            }
        } else if is_dotdot {
            return None;
        } else {
            return Some((seg_start, end));
        }
    }
}

/// The MIME type of an extension.
fn mime_lookup(ext: &Vec<char>) -> (m: Option<String>)
    ensures
        match m {
            Some(s) => mime_for_extension(ext@) == Some(s@),
            None => mime_for_extension(ext@) is None,
        },
{
    if eq_ascii_ci(ext, "txt") || eq_ascii_ci(ext, "md") {
        Some("text/plain".to_owned())
    } else if eq_ascii_ci(ext, "html") || eq_ascii_ci(ext, "htm") {
        Some("text/html".to_owned())
    } else if eq_ascii_ci(ext, "json") {
        Some("application/json".to_owned())
    } else if eq_ascii_ci(ext, "pdf") {
        Some("application/pdf".to_owned())
    } else if eq_ascii_ci(ext, "jpg") || eq_ascii_ci(ext, "jpeg") {
        Some("image/jpeg".to_owned())
    } else if eq_ascii_ci(ext, "png") {
        Some("image/png".to_owned())
    } else if eq_ascii_ci(ext, "gif") {
        Some("image/gif".to_owned())
    } else if eq_ascii_ci(ext, "zip") {
        Some("application/zip".to_owned())
    } else if eq_ascii_ci(ext, "tar") {
        Some("application/x-tar".to_owned())
    } else if eq_ascii_ci(ext, "gz") {
        Some("application/gzip".to_owned())
    } else {
        None
    }
}

/// Whether the ASCII lowercase of `s` is `lit`.
pub(crate) fn eq_ascii_ci(s: &Vec<char>, lit: &str) -> (r: bool)
    ensures
        r == (ascii_lower(s@) == lit@),
{
    let n = lit.unicode_len();
    if s.len() != n {
        proof {
            assert(ascii_lower(s@).len() == s@.len());
        }
        return false;
    }
    let mut i: usize = 0;
    while i < n
        invariant
            n == lit@.len(),
            s@.len() == n,
            i <= n,
            forall|t: int| 0 <= t < i ==> #[trigger] ascii_lower(s@)[t] == lit@[t],
        decreases n - i,
    {
        let c = s[i];
        let lc = if 'A' <= c && c <= 'Z' {
            (((c as u32) + 32) as u8) as char
        } else {
            c
        };
        proof {
            assert(ascii_lower(s@)[i as int] == lc);
        }
        if lc != lit.get_char(i) {
            return false;
        }
        i = i + 1;
    }
    proof {
        assert(ascii_lower(s@) =~= lit@);
    }
    true
}

} // verus!
