//! Reed-Solomon erasure coding over GF(2^8): systematic encoding of a byte string
//! into data and parity pieces, and reconstruction of lost data pieces.

use vstd::prelude::*;
use crate::redundancy::galois::{GaloisField, lemma_mul_identity, lemma_mul_commutative};
use crate::redundancy::gf_matrix::{is_left_inverse, row_tracks, lemma_initial_row_tracks, lemma_scaled_row_tracks, lemma_combined_row_tracks, lemma_tracking_identity_inverts, lemma_div_self, lemma_xor_facts, xor_sum, lemma_xor_sum_ext, lemma_xor_sum_single, lemma_left_inverse_recovers, right_halves, lemma_identity_inverse, lemma_stuck_column_singular, lemma_left_inverse_swap, lemma_left_inverse_scale, lemma_left_inverse_combine};
use crate::text::{hex_fixed, indexed_id, decimal, format_hex8, format_indexed_id, format_decimal};
use crate::clock::{utc_now_millis, instant_now, elapsed_millis};
use crate::bytes::{copy_range, zeros};

verus! {

/// Coding parameters.
#[derive(Clone, Copy, Debug, PartialEq, Eq)]
pub struct ReedSolomonConfig {
    /// Number of data chunks
    pub data_chunks: u32,
    /// Number of parity chunks
    pub parity_chunks: u32,
    /// Chunk size in bytes
    pub chunk_size: usize,
    /// Galois field size (typically 2^8 = 256)
    pub field_size: u32,
    /// Primitive polynomial for GF(2^8)
    pub primitive_poly: u32,
}

/// The configuration with the given split and the standard remaining parameters
/// (1 MiB chunks over GF(2^8) modulo 0x11d).
pub open spec fn standard_config(data_chunks: u32, parity_chunks: u32) -> ReedSolomonConfig {
    ReedSolomonConfig {
        data_chunks,
        parity_chunks,
        chunk_size: 1048576usize,
        field_size: 256u32,
        primitive_poly: 0x11du32,
    }
}

impl ReedSolomonConfig {
    /// A configuration whose piece counts add up without overflow, and whose decoding
    /// matrices (`[A | I]`, twice as wide as high) can be indexed.
    pub open spec fn counts_fit(&self) -> bool {
        &&& self.data_chunks + self.parity_chunks <= u32::MAX
        &&& 2 * self.data_chunks <= usize::MAX
    }

    /// The standard configuration with the given split.
    pub fn standard(data_chunks: u32, parity_chunks: u32) -> (c: Self)
        ensures
            c == standard_config(data_chunks, parity_chunks),
    {
        ReedSolomonConfig {
            data_chunks,
            parity_chunks,
            chunk_size: 1024 * 1024,
            field_size: 256,
            primitive_poly: 0x11d,
        }
    }
}

impl Default for ReedSolomonConfig {
    /// Six data and three parity chunks of 1 MiB.
    fn default() -> (c: Self)
        ensures
            c == standard_config(6, 3),
    {
        ReedSolomonConfig::standard(6, 3)
    }
}

/// Kind of an encoded piece.
#[derive(Clone, Copy, Debug, PartialEq, Eq)]
pub enum ChunkType {
    Data,
    Parity,
}

/// Metadata carried by every encoded piece.
#[derive(Clone, Debug)]
pub struct ChunkMetadata {
    pub original_size: usize,
    pub checksum: String,
    pub encoding_config: ReedSolomonConfig,
    pub chunk_position: u32,
    pub total_chunks: u32,
}

/// One piece produced by the encoder.
#[derive(Clone, Debug)]
pub struct EncodedChunk {
    pub chunk_id: String,
    pub chunk_index: u32,
    pub chunk_type: ChunkType,
    pub data: Vec<u8>,
    pub metadata: ChunkMetadata,
    /// Creation time, in milliseconds since the Unix epoch.
    pub created_at: i64,
}

/// A request to rebuild missing pieces from the ones still available.
#[derive(Clone, Debug)]
pub struct ReconstructionRequest {
    pub original_chunk_id: String,
    pub available_chunks: Vec<EncodedChunk>,
    pub missing_chunk_indices: Vec<u32>,
    pub target_chunk_size: usize,
}

/// Outcome of a reconstruction.
#[derive(Clone, Debug)]
pub struct ReconstructionResult {
    pub success: bool,
    pub reconstructed_chunks: Vec<EncodedChunk>,
    pub reconstruction_time_ms: u64,
    pub error_message: Option<String>,
    pub verification_passed: bool,
}

/// Errors of the coding layer.
#[derive(Clone, Debug, PartialEq, Eq)]
pub enum RedundancyError {
    /// The submatrix selected by the available pieces has no inverse.
    MatrixNotInvertible,
    /// No codec is registered under the requested scheme name.
    SchemeNotFound { scheme: String },
}

/// Reed-Solomon manager for handling multiple coding schemes.
pub struct ReedSolomonManager {
    /// Codecs by scheme name, each name once
    pub codecs: Vec<(String, ReedSolomonCodec)>,
    pub default_scheme: String,
}

/// The schemes the manager registers, by name and split.
pub open spec fn standard_schemes() -> Seq<(Seq<char>, u32, u32)> {
    seq![("3+2"@, 3u32, 2u32), ("6+3"@, 6u32, 3u32), ("10+4"@, 10u32, 4u32), ("8+6"@, 8u32, 6u32)]
}

impl ReedSolomonManager {
    /// Every registered codec is well formed, under a name of its own.
    pub open spec fn wf(&self) -> bool {
        &&& forall|e: int| 0 <= e < self.codecs@.len() ==> (#[trigger] self.codecs@[e]).1.wf()
        &&& forall|e1: int, e2: int|
            0 <= e1 < self.codecs@.len() && 0 <= e2 < self.codecs@.len() && e1 != e2
                ==> (#[trigger] self.codecs@[e1]).0@ != (#[trigger] self.codecs@[e2]).0@
    }

    /// Create new Reed-Solomon manager with multiple schemes
    pub fn new() -> (r: Result<Self, RedundancyError>)
        ensures
            r matches Ok(m) && {
                &&& m.wf()
                &&& m.default_scheme@ == "6+3"@
                &&& m.codecs@.len() == 4
                &&& forall|e: int|
                    0 <= e < 4 ==> {
                        &&& (#[trigger] m.codecs@[e]).0@ == standard_schemes()[e].0
                        &&& m.codecs@[e].1.config == standard_config(
                            standard_schemes()[e].1,
                            standard_schemes()[e].2,
                        )
                        &&& m.codecs@[e].1.decoding_cache@.len() == 0
                    }
            },
    {
        proof {
            reveal_strlit("3+2");
            reveal_strlit("6+3");
            reveal_strlit("10+4");
            reveal_strlit("8+6");
        }
        let mut codecs: Vec<(String, ReedSolomonCodec)> = Vec::new();
        // Initialize standard schemes
        let c1 = match ReedSolomonCodec::new(ReedSolomonConfig::standard(3, 2)) {
            Ok(c) => c,
            Err(e) => {
                return Err(e);
            },
        };
        codecs.push(("3+2".to_owned(), c1));
        let c2 = match ReedSolomonCodec::new(ReedSolomonConfig::standard(6, 3)) {
            Ok(c) => c,
            Err(e) => {
                return Err(e);
            },
        };
        codecs.push(("6+3".to_owned(), c2));
        let c3 = match ReedSolomonCodec::new(ReedSolomonConfig::standard(10, 4)) {
            Ok(c) => c,
            Err(e) => {
                return Err(e);
            },
        };
        codecs.push(("10+4".to_owned(), c3));
        let c4 = match ReedSolomonCodec::new(ReedSolomonConfig::standard(8, 6)) {
            Ok(c) => c,
            Err(e) => {
                return Err(e);
            },
        };
        codecs.push(("8+6".to_owned(), c4));
        let m = ReedSolomonManager { codecs, default_scheme: "6+3".to_owned() };
        proof {
            assert forall|e1: int, e2: int|
                0 <= e1 < m.codecs@.len() && 0 <= e2 < m.codecs@.len() && e1 != e2
                implies (#[trigger] m.codecs@[e1]).0@ != (#[trigger] m.codecs@[e2]).0@ by {
                assert(m.codecs@[0].0@ == "3+2"@);
                assert(m.codecs@[1].0@ == "6+3"@);
                assert(m.codecs@[2].0@ == "10+4"@);
                assert(m.codecs@[3].0@ == "8+6"@);
                assert("3+2"@[0] != "6+3"@[0]);
                assert("3+2"@[0] != "8+6"@[0]);
                assert("6+3"@[0] != "8+6"@[0]);
                assert("10+4"@.len() != "3+2"@.len());
                assert("10+4"@.len() != "6+3"@.len());
                assert("10+4"@.len() != "8+6"@.len());
            }
        }
        Ok(m)
    }

    /// Get codec for scheme
    pub fn get_codec(&mut self, scheme: &str) -> (r: Result<&mut ReedSolomonCodec, RedundancyError>)
        requires
            old(self).wf(),
        ensures
            match r {
                Ok(codec) => exists|e: int|
                    0 <= e < old(self).codecs@.len() && (#[trigger] old(self).codecs@[e]).0@ == scheme@
                        && *codec == old(self).codecs@[e].1 && final(self).codecs@ == old(self).codecs@.update(
                        e,
                        (old(self).codecs@[e].0, *final(codec)),
                    ) && final(self).default_scheme == old(self).default_scheme,
                Err(err) => {
                    &&& err == RedundancyError::SchemeNotFound { scheme: err->scheme }
                    &&& err->scheme@ == scheme@
                    &&& forall|e: int| 0 <= e < old(self).codecs@.len() ==> (#[trigger] old(self).codecs@[e]).0@ != scheme@
                    &&& *final(self) == *old(self)
                },
            },
    {
        let wanted = scheme.to_owned();
        let mut e: usize = 0;
        while e < self.codecs.len()
            invariant
                wanted@ == scheme@,
                *self == *old(self),
                e <= self.codecs@.len(),
                forall|f: int| 0 <= f < e ==> (#[trigger] self.codecs@[f]).0@ != scheme@,
            decreases self.codecs@.len() - e,
        {
            if self.codecs[e].0 == wanted {
                assert(old(self).codecs@[e as int].0@ == scheme@);
                return Ok(&mut self.codecs[e].1);
            }
            e = e + 1;
        }
        Err(RedundancyError::SchemeNotFound { scheme: wanted })
    }
}

/// Sum of the bytes of a sequence.
pub open spec fn byte_sum(s: Seq<u8>) -> nat
    decreases s.len(),
{
    if s.len() == 0 {
        0
    } else {
        byte_sum(s.drop_last()) + s.last() as nat
    }
}

/// The checksum text of a piece: the byte sum as eight lowercase hexadecimal digits.
pub open spec fn checksum_text(s: Seq<u8>) -> Seq<char> {
    hex_fixed(byte_sum(s), 8)
}

/// The rows of a matrix held as nested vectors.
pub open spec fn rows_of(m: Seq<Vec<u8>>) -> Seq<Seq<u8>> {
    m.map_values(|row: Vec<u8>| row@)
}

/// The rows of a nested-vector matrix, one by one.
pub proof fn lemma_rows_of(m: Seq<Vec<u8>>)
    ensures
        rows_of(m).len() == m.len(),
        forall|k: int| 0 <= k < m.len() ==> #[trigger] rows_of(m)[k] == m[k]@,
{
}

/// Row `r` of the `d x d` identity matrix.
pub open spec fn unit_row(d: nat, r: int) -> Seq<u8> {
    Seq::new(d, |c: int| if c == r { 1u8 } else { 0u8 })
}

/// The systematic encoding matrix: the identity on the first `d` rows, then for parity row
/// `i` the powers `(i+1)^c` of the element `i+1` (taken modulo 256).
pub open spec fn encoding_matrix_spec(gf: GaloisField, d: nat, p: nat) -> Seq<Seq<u8>> {
    Seq::new(
        d + p,
        |r: int|
            if r < d {
                unit_row(d, r)
            } else {
                Seq::new(d, |c: int| gf.spec_pow((r - d + 1) as u8, c as u8))
            },
    )
}

/// Bytes per piece when `len` bytes are split into `d` equal pieces (rounded up).
pub open spec fn piece_len(len: nat, d: nat) -> nat {
    ((len + d - 1) / (d as int)) as nat
}

/// The input padded with zeros to `d` equal pieces.
pub open spec fn padded_spec(data: Seq<u8>, d: nat) -> Seq<u8> {
    data + Seq::new((piece_len(data.len(), d) * d - data.len()) as nat, |k: int| 0u8)
}

/// Data piece `i`: bytes `i*s .. (i+1)*s` of the padded input.
pub open spec fn data_piece(data: Seq<u8>, d: nat, i: int) -> Seq<u8> {
    let s = piece_len(data.len(), d);
    padded_spec(data, d).subrange(i * s, (i + 1) * s)
}

/// Byte `j` of a parity piece, accumulated over the first `k` data pieces:
/// the XOR of `row[m] * piece_m[j]` for `m < k`.
pub open spec fn parity_acc(gf: GaloisField, row: Seq<u8>, padded: Seq<u8>, s: int, j: int, k: int) -> u8
    decreases k,
{
    if k <= 0 {
        0
    } else {
        parity_acc(gf, row, padded, s, j, k - 1) ^ gf.spec_mul(padded[(k - 1) * s + j], row[k - 1])
    }
}

/// The parity piece computed with an encoding-matrix row.
pub open spec fn parity_piece(gf: GaloisField, row: Seq<u8>, data: Seq<u8>, d: nat) -> Seq<u8> {
    let s = piece_len(data.len(), d);
    Seq::new(s, |j: int| parity_acc(gf, row, padded_spec(data, d), s as int, j, d as int))
}

/// The byte count recorded for data piece `i`: the last piece records what is left of the
/// input after the others.
pub open spec fn recorded_size(len: nat, d: nat, i: int) -> int {
    if i == d - 1 {
        len - (d - 1) * piece_len(len, d)
    } else {
        piece_len(len, d) as int
    }
}

/// The indices carried by a list of pieces, in order.
pub open spec fn indices_of(chunks: Seq<EncodedChunk>) -> Seq<usize> {
    chunks.map_values(|c: EncodedChunk| c.chunk_index as usize)
}

/// The requested missing indices that name pieces of the code (below `bound`), in request
/// order.
pub open spec fn kept_missing(missing: Seq<u32>, bound: nat) -> Seq<u32>
    decreases missing.len(),
{
    if missing.len() == 0 {
        Seq::empty()
    } else {
        let rest = kept_missing(missing.drop_last(), bound);
        if missing.last() < bound {
            rest.push(missing.last())
        } else {
            rest
        }
    }
}

/// Byte `b` of rebuilt data piece `m`, accumulated over the first `cols` available pieces:
/// the XOR of `dm[m][c] * avail[c][b]` for `c < cols`.
pub open spec fn recon_byte(
    gf: GaloisField,
    dm: Seq<Seq<u8>>,
    avail: Seq<EncodedChunk>,
    m: int,
    b: int,
    cols: int,
) -> u8
    decreases cols,
{
    if cols <= 0 {
        0
    } else {
        recon_byte(gf, dm, avail, m, b, cols - 1) ^ gf.spec_mul(avail[cols - 1].data@[b], dm[m][cols - 1])
    }
}

/// Rebuilt data piece `m`: row `m` of the decoding matrix applied to the first `d` available pieces.
pub open spec fn recon_piece(
    gf: GaloisField,
    dm: Seq<Seq<u8>>,
    avail: Seq<EncodedChunk>,
    m: int,
    cs: nat,
    d: nat,
) -> Seq<u8> {
    Seq::new(cs, |b: int| recon_byte(gf, dm, avail, m, b, d as int))
}

/// Byte `b` of a piece combined from `pieces` with the coefficients `row`, over the first
/// `k` pieces: the XOR of `pieces[c][b] * row[c]` for `c < k`.
pub open spec fn combine_acc(gf: GaloisField, row: Seq<u8>, pieces: Seq<Seq<u8>>, b: int, k: int) -> u8
    decreases k,
{
    if k <= 0 {
        0
    } else {
        combine_acc(gf, row, pieces, b, k - 1) ^ gf.spec_mul(pieces[k - 1][b], row[k - 1])
    }
}

/// All `d` data pieces as the decoding matrix recovers them from the available pieces.
pub open spec fn decoded_pieces(gf: GaloisField, dm: Seq<Seq<u8>>, avail: Seq<EncodedChunk>, cs: nat, d: nat) -> Seq<
    Seq<u8>,
> {
    Seq::new(d, |k: int| recon_piece(gf, dm, avail, k, cs, d))
}

/// A parity piece recomputed from data pieces with its encoding-matrix row.
pub open spec fn rebuilt_parity(gf: GaloisField, row: Seq<u8>, pieces: Seq<Seq<u8>>, cs: nat, d: nat) -> Seq<u8> {
    Seq::new(cs, |b: int| combine_acc(gf, row, pieces, b, d as int))
}

/// The message of a reconstruction refused for want of pieces.
pub open spec fn insufficient_message(need: nat, have: nat) -> Seq<char> {
    "Insufficient chunks: need "@ + decimal(need) + ", have "@ + decimal(have)
}

/// Reed-Solomon encoder/decoder.
pub struct ReedSolomonCodec {
    /// Coding parameters
    pub config: ReedSolomonConfig,
    /// Galois field arithmetic
    pub galois_field: GaloisField,
    /// Encoding matrix
    pub encoding_matrix: Vec<Vec<u8>>,
    /// Decoding matrices already computed, keyed by the indices of the pieces they decode from
    pub decoding_cache: Vec<(Vec<usize>, Vec<Vec<u8>>)>,
}

impl ReedSolomonCodec {
    /// The codec as `new` builds it and the other methods keep it.
    pub open spec fn wf(&self) -> bool {
        &&& self.galois_field.wf()
        &&& self.config.counts_fit()
        &&& rows_of(self.encoding_matrix@) == encoding_matrix_spec(
            self.galois_field,
            self.config.data_chunks as nat,
            self.config.parity_chunks as nat,
        )
        &&& forall|e: int|
            0 <= e < self.decoding_cache@.len() ==> self.cache_entry_ok(#[trigger] self.decoding_cache@[e])
        &&& forall|e1: int, e2: int|
            0 <= e1 < self.decoding_cache@.len() && 0 <= e2 < self.decoding_cache@.len() && e1 != e2
                ==> (#[trigger] self.decoding_cache@[e1]).0@ != (#[trigger] self.decoding_cache@[e2]).0@
    }

    /// Whether a decoding matrix for the given piece indices is cached.
    pub open spec fn has_cached(&self, key: Seq<usize>) -> bool {
        exists|e: int| 0 <= e < self.decoding_cache@.len() && (#[trigger] self.decoding_cache@[e]).0@ == key
    }

    /// The cached decoding matrix for the given piece indices.
    pub open spec fn cached_matrix(&self, key: Seq<usize>) -> Seq<Seq<u8>> {
        let e = choose|e: int| 0 <= e < self.decoding_cache@.len() && (#[trigger] self.decoding_cache@[e]).0@ == key;
        rows_of(self.decoding_cache@[e].1@)
    }

    /// Everything but the decoding cache is the same in both codecs.
    pub open spec fn same_code(&self, other: &Self) -> bool {
        &&& self.config == other.config
        &&& self.galois_field == other.galois_field
        &&& self.encoding_matrix == other.encoding_matrix
    }

    /// The encoding-matrix rows of the pieces named by the first `d` indices of `key`.
    pub open spec fn selected_rows(&self, key: Seq<usize>) -> Seq<Seq<u8>> {
        Seq::new(self.config.data_chunks as nat, |c: int| rows_of(self.encoding_matrix@)[key[c] as int])
    }

    /// A cached decoding matrix is square, of the number of data pieces, and a left inverse
    /// of the encoding-matrix rows of the pieces its key names first.
    pub open spec fn cache_entry_ok(&self, entry: (Vec<usize>, Vec<Vec<u8>>)) -> bool {
        let d = self.config.data_chunks as nat;
        &&& entry.0@.len() >= d
        &&& forall|c: int| 0 <= c < d ==> #[trigger] entry.0@[c] < d + self.config.parity_chunks
        &&& entry.1@.len() == d
        &&& forall|r: int| 0 <= r < d ==> (#[trigger] entry.1@[r])@.len() == d
        &&& is_left_inverse(self.galois_field, rows_of(entry.1@), self.selected_rows(entry.0@), d as int)
    }

    /// Create new Reed-Solomon codec
    pub fn new(config: ReedSolomonConfig) -> (r: Result<Self, RedundancyError>)
        requires
            config.counts_fit(),
        ensures
            r is Ok,
            r matches Ok(codec) ==> {
                &&& codec.wf()
                &&& codec.config == config
                &&& codec.decoding_cache@.len() == 0
            },
    {
        let galois_field = GaloisField::new();
        let encoding_matrix = match Self::build_encoding_matrix(&config, &galois_field) {
            Ok(m) => m,
            Err(e) => {
                return Err(e);
            },
        };
        Ok(Self { config, galois_field, encoding_matrix, decoding_cache: Vec::new() })
    }

    /// Build encoding matrix for Reed-Solomon
    fn build_encoding_matrix(config: &ReedSolomonConfig, gf: &GaloisField) -> (r: Result<
        Vec<Vec<u8>>,
        RedundancyError,
    >)
        requires
            gf.wf(),
            config.counts_fit(),
        ensures
            r matches Ok(m) && rows_of(m@) == encoding_matrix_spec(
                *gf,
                config.data_chunks as nat,
                config.parity_chunks as nat,
            ),
    {
        let total_chunks = config.data_chunks + config.parity_chunks;
        let mut matrix: Vec<Vec<u8>> = Vec::with_capacity(total_chunks as usize);
        let ghost d = config.data_chunks as nat;
        let ghost p = config.parity_chunks as nat;
        let ghost spec = encoding_matrix_spec(*gf, d, p);

        // Identity matrix for data chunks
        for i in 0..config.data_chunks
            invariant
                gf.wf(),
                d == config.data_chunks,
                p == config.parity_chunks,
                spec == encoding_matrix_spec(*gf, d, p),
                matrix@.len() == i,
                forall|r: int| 0 <= r < i ==> #[trigger] rows_of(matrix@)[r] == spec[r],
        {
            let mut row: Vec<u8> = Vec::new();
            for c in 0..config.data_chunks
                invariant
                    row@.len() == c,
                    forall|k: int| 0 <= k < c ==> #[trigger] row@[k] == (if k == i { 1u8 } else { 0u8 }),
            {
                if c == i {
                    row.push(1u8);
                } else {
                    row.push(0u8);
                }
            }
            let ghost before = matrix@;
            matrix.push(row);
            proof {
                assert(rows_of(matrix@)[i as int] =~= spec[i as int]);
                assert forall|r: int| 0 <= r < i + 1 implies #[trigger] rows_of(matrix@)[r] == spec[r] by {
                    if r < i {
                        assert(matrix@[r] == before[r]);
                        assert(rows_of(before)[r] == spec[r]);
                    }
                }
            }
        }

        // Vandermonde matrix for parity chunks
        for i in 0..config.parity_chunks
            invariant
                gf.wf(),
                d == config.data_chunks,
                p == config.parity_chunks,
                spec == encoding_matrix_spec(*gf, d, p),
                matrix@.len() == d + i,
                forall|r: int| 0 <= r < d + i ==> #[trigger] rows_of(matrix@)[r] == spec[r],
        {
            let mut row: Vec<u8> = Vec::with_capacity(config.data_chunks as usize);
            let alpha = #[verifier::truncate] ((i + 1) as u8);
            for j in 0..config.data_chunks
                invariant
                    gf.wf(),
                    alpha == (i + 1) as u8,
                    row@.len() == j,
                    forall|k: int| 0 <= k < j ==> #[trigger] row@[k] == gf.spec_pow(alpha, k as u8),
            {
                row.push(gf.power(alpha, #[verifier::truncate] (j as u8)));
            }
            let ghost before = matrix@;
            matrix.push(row);
            proof {
                assert forall|r: int| 0 <= r < d + i implies #[trigger] rows_of(matrix@)[r] == spec[r] by {
                    assert(matrix@[r] == before[r]);
                    assert(rows_of(before)[r] == spec[r]);
                }
                let r = d + i;
                assert(((r - d + 1) as u8) == alpha);
                assert(rows_of(matrix@)[r as int] =~= spec[r as int]);
            }
        }
        proof {
            assert(rows_of(matrix@) =~= spec);
        }
        Ok(matrix)
    }

    /// What `encode` returns for `data` under identifier `chunk_id`: one piece per row of the
    /// encoding matrix, data pieces first.
    pub open spec fn encoding_of(&self, chunk_id: Seq<char>, data: Seq<u8>, chunks: Seq<EncodedChunk>) -> bool {
        let d = self.config.data_chunks as nat;
        let p = self.config.parity_chunks as nat;
        let s = piece_len(data.len(), d);
        &&& chunks.len() == d + p
        &&& forall|i: int|
            0 <= i < d + p ==> {
                let c = #[trigger] chunks[i];
                &&& c.chunk_id@ == indexed_id(chunk_id, i as nat)
                &&& c.chunk_index == i
                &&& c.metadata.chunk_position == i
                &&& c.metadata.total_chunks == d + p
                &&& c.metadata.encoding_config == self.config
                &&& c.metadata.checksum@ == checksum_text(c.data@)
                &&& if i < d {
                    &&& c.chunk_type == ChunkType::Data
                    &&& c.data@ == data_piece(data, d, i)
                    &&& c.metadata.original_size == recorded_size(data.len(), d, i)
                } else {
                    &&& c.chunk_type == ChunkType::Parity
                    &&& c.data@ == parity_piece(self.galois_field, rows_of(self.encoding_matrix@)[i], data, d)
                    &&& c.metadata.original_size == s
                }
            }
    }

    /// Inputs that `encode` handles without overflow: a positive number of data pieces, an
    /// input whose rounding to whole pieces fits in memory, a last data piece that is not
    /// empty of input bytes, and pieces whose byte sums fit their 32-bit checksums.
    pub open spec fn encode_accepts(&self, data: Seq<u8>) -> bool {
        let d = self.config.data_chunks as nat;
        let p = self.config.parity_chunks as nat;
        let s = piece_len(data.len(), d);
        &&& d > 0
        &&& data.len() + d <= usize::MAX
        &&& (d - 1) * s <= data.len()
        &&& forall|i: int| 0 <= i < d + p ==> byte_sum(#[trigger] self.piece_of(data, i)) <= u32::MAX
    }

    /// Encode data into Reed-Solomon chunks
    pub fn encode(&self, chunk_id: String, data: &[u8]) -> (r: Result<Vec<EncodedChunk>, RedundancyError>)
        requires
            self.wf(),
            self.encode_accepts(data@),
        ensures
            r matches Ok(chunks) && self.encoding_of(chunk_id@, data@, chunks@),
    {
        let data_chunks = self.config.data_chunks as usize;
        let total_chunks = (self.config.data_chunks + self.config.parity_chunks) as usize;
        let ghost d = data_chunks as nat;
        let ghost p = self.config.parity_chunks as nat;

        // Pad data to fit evenly into data chunks
        let chunk_data_size = (data.len() + data_chunks - 1) / data_chunks;
        proof {
            lemma_piece_bounds(data@.len(), d);
        }
        let padded_size = chunk_data_size * data_chunks;
        let padded_data = pad_with_zeros(data, padded_size);
        let ghost s = chunk_data_size as nat;
        assert(padded_data@ == padded_spec(data@, d));
        let mut chunks: Vec<EncodedChunk> = Vec::with_capacity(total_chunks);

        // Create data chunks
        for i in 0..data_chunks
            invariant
                self.wf(),
                self.encode_accepts(data@),
                d == data_chunks,
                d == self.config.data_chunks,
                p == self.config.parity_chunks,
                total_chunks == d + p,
                s == chunk_data_size,
                s == piece_len(data@.len(), d),
                padded_size == s * d,
                padded_data@ == padded_spec(data@, d),
                padded_data@.len() == padded_size,
                chunks@.len() == i,
                forall|k: int| 0 <= k < i ==> self.piece_ok(chunk_id@, data@, #[trigger] chunks@[k], k),
        {
            proof {
                lemma_piece_offset(i as int, s as int, d as int);
            }
            let start = i * chunk_data_size;
            let end = start + chunk_data_size;
            let chunk_data = copy_range(padded_data.as_slice(), start, end);
            proof {
                assert(self.piece_of(data@, i as int) =~= chunk_data@);
            }
            let checksum = self.calculate_checksum(chunk_data.as_slice());
            let original_size = if i == data_chunks - 1 {
                proof {
                    assert((d - 1) * s <= data@.len());
                }
                data.len() - (data_chunks - 1) * chunk_data_size
            } else {
                chunk_data_size
            };
            let piece = EncodedChunk {
                chunk_id: format_indexed_id(chunk_id.as_str(), i as u64),
                chunk_index: i as u32,
                chunk_type: ChunkType::Data,
                data: chunk_data,
                metadata: ChunkMetadata {
                    original_size,
                    checksum,
                    encoding_config: self.config,
                    chunk_position: i as u32,
                    total_chunks: total_chunks as u32,
                },
                created_at: utc_now_millis(),
            };
            chunks.push(piece);
        }

        // Create parity chunks
        for i in data_chunks..total_chunks
            invariant
                self.wf(),
                self.encode_accepts(data@),
                d == data_chunks,
                d == self.config.data_chunks,
                p == self.config.parity_chunks,
                total_chunks == d + p,
                s == chunk_data_size,
                s == piece_len(data@.len(), d),
                padded_size == s * d,
                padded_data@ == padded_spec(data@, d),
                padded_data@.len() == padded_size,
                chunks@.len() == i,
                forall|k: int| 0 <= k < i ==> self.piece_ok(chunk_id@, data@, #[trigger] chunks@[k], k),
        {
            let parity_data = self.parity_bytes(&padded_data, chunk_data_size, i);
            proof {
                assert(self.piece_of(data@, i as int) =~= parity_data@);
            }
            let checksum = self.calculate_checksum(parity_data.as_slice());
            let piece = EncodedChunk {
                chunk_id: format_indexed_id(chunk_id.as_str(), i as u64),
                chunk_index: i as u32,
                chunk_type: ChunkType::Parity,
                data: parity_data,
                metadata: ChunkMetadata {
                    original_size: chunk_data_size,
                    checksum,
                    encoding_config: self.config,
                    chunk_position: i as u32,
                    total_chunks: total_chunks as u32,
                },
                created_at: utc_now_millis(),
            };
            chunks.push(piece);
        }
        Ok(chunks)
    }

    /// One piece of an encoding, as `encoding_of` describes it.
    pub open spec fn piece_ok(&self, chunk_id: Seq<char>, data: Seq<u8>, c: EncodedChunk, i: int) -> bool {
        let d = self.config.data_chunks as nat;
        let p = self.config.parity_chunks as nat;
        let s = piece_len(data.len(), d);
        &&& c.chunk_id@ == indexed_id(chunk_id, i as nat)
        &&& c.chunk_index == i
        &&& c.metadata.chunk_position == i
        &&& c.metadata.total_chunks == d + p
        &&& c.metadata.encoding_config == self.config
        &&& c.metadata.checksum@ == checksum_text(c.data@)
        &&& if i < d {
            &&& c.chunk_type == ChunkType::Data
            &&& c.data@ == data_piece(data, d, i)
            &&& c.metadata.original_size == recorded_size(data.len(), d, i)
        } else {
            &&& c.chunk_type == ChunkType::Parity
            &&& c.data@ == parity_piece(self.galois_field, rows_of(self.encoding_matrix@)[i], data, d)
            &&& c.metadata.original_size == s
        }
    }

    /// The parity piece of encoding-matrix row `row`.
    fn parity_bytes(&self, padded: &Vec<u8>, s: usize, row: usize) -> (out: Vec<u8>)
        requires
            self.wf(),
            self.config.data_chunks as nat <= row < self.config.data_chunks + self.config.parity_chunks,
            padded@.len() == s * self.config.data_chunks,
            s * self.config.data_chunks <= usize::MAX,
        ensures
            out@ == Seq::new(
                s as nat,
                |j: int|
                    parity_acc(
                        self.galois_field,
                        rows_of(self.encoding_matrix@)[row as int],
                        padded@,
                        s as int,
                        j,
                        self.config.data_chunks as int,
                    ),
            ),
    {
        let data_chunks = self.config.data_chunks as usize;
        let ghost d = data_chunks as int;
        let ghost mrow = rows_of(self.encoding_matrix@)[row as int];
        assert(rows_of(self.encoding_matrix@).len() == self.encoding_matrix@.len());
        assert(row < self.encoding_matrix@.len());
        assert(self.encoding_matrix@[row as int]@ == mrow);
        assert(mrow.len() == d);
        let mut parity_data: Vec<u8> = Vec::new();
        for j in 0..s
            invariant
                self.wf(),
                d == self.config.data_chunks,
                data_chunks == d,
                padded@.len() == s * d,
                s * d <= usize::MAX,
                row < self.encoding_matrix@.len(),
                mrow == self.encoding_matrix@[row as int]@,
                mrow.len() == d,
                parity_data@.len() == j,
                forall|t: int|
                    0 <= t < j ==> #[trigger] parity_data@[t] == parity_acc(
                        self.galois_field,
                        mrow,
                        padded@,
                        s as int,
                        t,
                        d,
                    ),
        {
            let mut parity_byte: u8 = 0;
            for k in 0..data_chunks
                invariant
                    self.wf(),
                    d == self.config.data_chunks,
                    data_chunks == d,
                    padded@.len() == s * d,
                    s * d <= usize::MAX,
                    j < s,
                    row < self.encoding_matrix@.len(),
                    mrow == self.encoding_matrix@[row as int]@,
                    mrow.len() == d,
                    parity_byte == parity_acc(self.galois_field, mrow, padded@, s as int, j as int, k as int),
            {
                proof {
                    lemma_piece_offset_byte(k as int, j as int, s as int, d);
                }
                let data_byte = padded[k * s + j];
                let coeff = self.encoding_matrix[row][k];
                parity_byte = parity_byte ^ self.galois_field.multiply(data_byte, coeff);
            }
            parity_data.push(parity_byte);
        }
        proof {
            assert(parity_data@ =~= Seq::new(
                s as nat,
                |t: int| parity_acc(self.galois_field, mrow, padded@, s as int, t, d),
            ));
        }
        parity_data
    }

    /// Invert a square matrix over GF(2^8) by Gauss-Jordan elimination on `[A | I]`.
    /// Succeeds exactly when the matrix has a left inverse, and then returns one.
    pub fn invert_matrix(&self, matrix: Vec<Vec<u8>>) -> (r: Result<Vec<Vec<u8>>, RedundancyError>)
        requires
            self.galois_field.wf(),
            2 * matrix@.len() <= usize::MAX,
            forall|i: int| 0 <= i < matrix@.len() ==> (#[trigger] matrix@[i])@.len() == matrix@.len(),
        ensures
            match r {
                Ok(inv) => {
                    &&& inv@.len() == matrix@.len()
                    &&& forall|i: int| 0 <= i < inv@.len() ==> (#[trigger] inv@[i])@.len() == matrix@.len()
                    &&& is_left_inverse(self.galois_field, rows_of(inv@), rows_of(matrix@), matrix@.len() as int)
                },
                Err(e) => {
                    &&& e == RedundancyError::MatrixNotInvertible
                    &&& forall|x: Seq<Seq<u8>>|
                        !is_left_inverse(self.galois_field, x, rows_of(matrix@), matrix@.len() as int)
                },
            },
    {
        let n = matrix.len();
        let ghost gf = self.galois_field;
        let ghost mm = rows_of(matrix@);
        let ghost ni = n as int;
        proof {
            lemma_rows_of(matrix@);
        }

        // Create augmented matrix [A|I]
        let mut augmented: Vec<Vec<u8>> = Vec::with_capacity(n);
        for i in 0..n
            invariant
                n == matrix@.len(),
                ni == n,
                2 * n <= usize::MAX,
                gf == self.galois_field,
                gf.wf(),
                mm.len() == n,
                forall|k: int| 0 <= k < n ==> (#[trigger] matrix@[k])@.len() == n,
                forall|k: int| 0 <= k < n ==> #[trigger] mm[k] == matrix@[k]@,
                augmented@.len() == i,
                forall|k: int| 0 <= k < i ==> (#[trigger] augmented@[k])@.len() == 2 * n,
                forall|k: int| 0 <= k < i ==> row_tracks(gf, #[trigger] augmented@[k]@, mm, ni),
                forall|k: int, t: int|
                    0 <= k < i && 0 <= t < n ==> #[trigger] augmented@[k]@[ni + t] == if k == t { 1u8 } else { 0u8 },
        {
            let mut row = copy_range(matrix[i].as_slice(), 0, n);
            for j in 0..n
                invariant
                    i < n,
                    row@.len() == n + j,
                    forall|c: int| 0 <= c < n ==> #[trigger] row@[c] == matrix@[i as int]@[c],
                    forall|k: int| 0 <= k < j ==> #[trigger] row@[n + k] == if k == i { 1u8 } else { 0u8 },
            {
                row.push(if i == j { 1u8 } else { 0u8 });
            }
            proof {
                assert(mm[i as int] == matrix@[i as int]@);
                lemma_initial_row_tracks(&gf, row@, mm, ni, i as int);
            }
            augmented.push(row);
        }
        let ghost mut zinv: Seq<Seq<u8>> = Seq::new(
            n as nat,
            |r: int| Seq::new(n as nat, |k: int| if r == k { 1u8 } else { 0u8 }),
        );
        proof {
            lemma_rows_of(augmented@);
            let y0 = right_halves(rows_of(augmented@), ni);
            assert forall|k: int, c: int| 0 <= k < ni && 0 <= c < ni implies #[trigger] y0[k][c] == if k == c {
                1u8
            } else {
                0u8
            } by {
                assert(rows_of(augmented@)[k] == augmented@[k]@);
                assert(augmented@[k]@[ni + c] == if k == c { 1u8 } else { 0u8 });
            }
            lemma_identity_inverse(&gf, zinv, y0, ni);
        }

        // Gaussian elimination
        for i in 0..n
            invariant
                self.galois_field.wf(),
                gf == self.galois_field,
                n == matrix@.len(),
                ni == n,
                2 * n <= usize::MAX,
                mm.len() == n,
                mm == rows_of(matrix@),
                augmented@.len() == n,
                forall|k: int| 0 <= k < n ==> (#[trigger] augmented@[k])@.len() == 2 * n,
                forall|k: int| 0 <= k < n ==> row_tracks(gf, #[trigger] augmented@[k]@, mm, ni),
                forall|r: int, c: int|
                    0 <= r < n && 0 <= c < i ==> #[trigger] augmented@[r]@[c] == if r == c { 1u8 } else { 0u8 },
                is_left_inverse(gf, zinv, right_halves(rows_of(augmented@), ni), ni),
        {
            // Find pivot
            let mut pivot_row = i;
            let mut j = i + 1;
            while j < n
                invariant_except_break
                    pivot_row == i,
                invariant
                    i < n,
                    i + 1 <= j <= n,
                    augmented@.len() == n,
                    forall|k: int| 0 <= k < n ==> (#[trigger] augmented@[k])@.len() == 2 * n,
                    forall|k: int| i < k < j ==> #[trigger] augmented@[k]@[i as int] == 0u8,
                ensures
                    i <= pivot_row < n,
                    pivot_row == i ==> forall|k: int| i < k < n ==> #[trigger] augmented@[k]@[i as int] == 0u8,
                    pivot_row != i ==> augmented@[pivot_row as int]@[i as int] != 0u8,
                decreases n - j,
            {
                if augmented[j][i] != 0 {
                    pivot_row = j;
                    break;
                }
                j = j + 1;
            }

            if augmented[pivot_row][i] == 0 {
                proof {
                    let rows = rows_of(augmented@);
                    lemma_rows_of(augmented@);
                    assert forall|r: int| 0 <= r < ni implies row_tracks(gf, #[trigger] rows[r], mm, ni) by {
                        assert(rows[r] == augmented@[r]@);
                    }
                    assert forall|r: int, c: int| 0 <= r < ni && 0 <= c < i implies #[trigger] rows[r][c] == if r
                        == c {
                        1u8
                    } else {
                        0u8
                    } by {
                        assert(rows[r] == augmented@[r]@);
                    }
                    assert forall|r: int| i <= r < ni implies #[trigger] rows[r][i as int] == 0 by {
                        assert(rows[r] == augmented@[r]@);
                    }
                    lemma_stuck_column_singular(&gf, rows, zinv, mm, ni, i as int);
                }
                return Err(RedundancyError::MatrixNotInvertible);
            }

            // Swap rows if needed
            if pivot_row != i {
                let ghost before = augmented@;
                swap_rows(&mut augmented, i, pivot_row);
                proof {
                    lemma_rows_of(augmented@);
                    lemma_rows_of(before);
                    assert forall|k: int| 0 <= k < n implies (#[trigger] augmented@[k])@ == if k == i {
                        before[pivot_row as int]@
                    } else if k == pivot_row {
                        before[i as int]@
                    } else {
                        before[k]@
                    } by {
                        assert(rows_of(augmented@)[k] == augmented@[k]@);
                        assert(rows_of(before)[k] == before[k]@);
                    }
                    assert forall|r: int, c: int| 0 <= r < n && 0 <= c < i implies #[trigger] augmented@[r]@[c]
                        == if r == c { 1u8 } else { 0u8 } by {
                        assert(augmented@[r]@ == if r == i {
                            before[pivot_row as int]@
                        } else if r == pivot_row {
                            before[i as int]@
                        } else {
                            before[r]@
                        });
                        assert(before[pivot_row as int]@[c] == 0u8);
                        assert(before[i as int]@[c] == 0u8);
                    }
                    let z0 = zinv;
                    let z1 = Seq::new(
                        n as nat,
                        |r: int|
                            Seq::new(
                                n as nat,
                                |k: int|
                                    if k == i {
                                        z0[r][pivot_row as int]
                                    } else if k == pivot_row {
                                        z0[r][i as int]
                                    } else {
                                        z0[r][k]
                                    },
                            ),
                    );
                    let y0 = right_halves(rows_of(before), ni);
                    let y1 = right_halves(rows_of(augmented@), ni);
                    assert forall|k: int, c: int| 0 <= k < ni && 0 <= c < ni implies #[trigger] y1[k][c] == if k
                        == i {
                        y0[pivot_row as int][c]
                    } else if k == pivot_row {
                        y0[i as int][c]
                    } else {
                        y0[k][c]
                    } by {
                        assert(rows_of(augmented@)[k] == augmented@[k]@);
                        assert(rows_of(before)[pivot_row as int] == before[pivot_row as int]@);
                        assert(rows_of(before)[i as int] == before[i as int]@);
                        assert(rows_of(before)[k] == before[k]@);
                    }
                    lemma_left_inverse_swap(&gf, z0, y0, z1, y1, ni, i as int, pivot_row as int);
                    zinv = z1;
                }
            }

            // Scale pivot row
            let pivot = augmented[i][i];
            let ghost old_row = augmented@[i as int]@;
            let ghost before_scale = augmented@;
            let mut row_i = copy_range(augmented[i].as_slice(), 0, 2 * n);
            for j in 0..(2 * n)
                invariant
                    self.galois_field.wf(),
                    pivot != 0,
                    old_row.len() == 2 * n,
                    row_i@.len() == 2 * n,
                    forall|t: int| 0 <= t < j ==> #[trigger] row_i@[t] == self.galois_field.spec_div(old_row[t], pivot),
                    forall|t: int| j <= t < 2 * n ==> #[trigger] row_i@[t] == old_row[t],
            {
                let scaled = self.galois_field.divide(row_i[j], pivot);
                row_i.set(j, scaled);
            }
            let ghost prow = row_i@;
            proof {
                lemma_scaled_row_tracks(&gf, old_row, prow, pivot, mm, ni);
                lemma_div_self(&gf, pivot);
                assert(prow[i as int] == 1u8);
                assert forall|c: int| 0 <= c < i implies #[trigger] prow[c] == 0u8 by {
                    assert(old_row[c] == 0u8);
                }
            }
            augmented.set(i, row_i);
            proof {
                lemma_rows_of(augmented@);
                lemma_rows_of(before_scale);
                let z0 = zinv;
                let z1 = Seq::new(
                    n as nat,
                    |r: int| Seq::new(n as nat, |k: int| if k == i { gf.spec_mul(z0[r][i as int], pivot) } else { z0[r][k] }),
                );
                let y0 = right_halves(rows_of(before_scale), ni);
                let y1 = right_halves(rows_of(augmented@), ni);
                assert forall|k: int, c: int| 0 <= k < ni && 0 <= c < ni implies #[trigger] y1[k][c] == if k == i {
                    gf.spec_div(y0[i as int][c], pivot)
                } else {
                    y0[k][c]
                } by {
                    assert(rows_of(augmented@)[k] == augmented@[k]@);
                    assert(rows_of(before_scale)[k] == before_scale[k]@);
                    assert(rows_of(before_scale)[i as int] == before_scale[i as int]@);
                }
                lemma_left_inverse_scale(&gf, z0, y0, z1, y1, ni, i as int, pivot);
                zinv = z1;
            }

            // Eliminate column
            for j in 0..n
                invariant
                    self.galois_field.wf(),
                    gf == self.galois_field,
                    i < n,
                    ni == n,
                    2 * n <= usize::MAX,
                    mm.len() == n,
                    augmented@.len() == n,
                    forall|k: int| 0 <= k < n ==> (#[trigger] augmented@[k])@.len() == 2 * n,
                    forall|k: int| 0 <= k < n ==> row_tracks(gf, #[trigger] augmented@[k]@, mm, ni),
                    augmented@[i as int]@ == prow,
                    prow[i as int] == 1u8,
                    forall|c: int| 0 <= c < i ==> #[trigger] prow[c] == 0u8,
                    forall|r: int, c: int|
                        0 <= r < n && 0 <= c < i ==> #[trigger] augmented@[r]@[c] == if r == c { 1u8 } else { 0u8 },
                    forall|r: int| 0 <= r < j && r != i ==> #[trigger] augmented@[r]@[i as int] == 0u8,
                    is_left_inverse(gf, zinv, right_halves(rows_of(augmented@), ni), ni),
            {
                if i != j && augmented[j][i] != 0 {
                    let factor = augmented[j][i];
                    let ghost old_j = augmented@[j as int]@;
                    let ghost before_combine = augmented@;
                    let mut row_j = copy_range(augmented[j].as_slice(), 0, 2 * n);
                    for k in 0..(2 * n)
                        invariant
                            self.galois_field.wf(),
                            i < n,
                            augmented@.len() == n,
                            forall|t: int| 0 <= t < n ==> (#[trigger] augmented@[t])@.len() == 2 * n,
                            augmented@[i as int]@ == prow,
                            old_j.len() == 2 * n,
                            row_j@.len() == 2 * n,
                            forall|t: int|
                                0 <= t < k ==> #[trigger] row_j@[t] == old_j[t] ^ self.galois_field.spec_mul(
                                    factor,
                                    prow[t],
                                ),
                            forall|t: int| k <= t < 2 * n ==> #[trigger] row_j@[t] == old_j[t],
                    {
                        let product = self.galois_field.multiply(factor, augmented[i][k]);
                        let updated = row_j[k] ^ product;
                        row_j.set(k, updated);
                    }
                    proof {
                        lemma_combined_row_tracks(&gf, old_j, prow, row_j@, factor, mm, ni);
                        lemma_mul_identity(&gf, factor);
                        lemma_xor_facts(factor, 0, 0, 0);
                        assert(row_j@[i as int] == 0u8);
                        assert forall|c: int| 0 <= c < i implies #[trigger] row_j@[c] == old_j[c] by {
                            lemma_xor_facts(old_j[c], 0, 0, 0);
                        }
                    }
                    augmented.set(j, row_j);
                    proof {
                        lemma_rows_of(augmented@);
                        lemma_rows_of(before_combine);
                        let z0 = zinv;
                        let z1 = Seq::new(
                            n as nat,
                            |r: int|
                                Seq::new(
                                    n as nat,
                                    |k: int|
                                        if k == i {
                                            z0[r][i as int] ^ gf.spec_mul(factor, z0[r][j as int])
                                        } else {
                                            z0[r][k]
                                        },
                                ),
                        );
                        let y0 = right_halves(rows_of(before_combine), ni);
                        let y1 = right_halves(rows_of(augmented@), ni);
                        assert forall|k: int, c: int| 0 <= k < ni && 0 <= c < ni implies #[trigger] y1[k][c] == if k
                            == j {
                            y0[j as int][c] ^ gf.spec_mul(factor, y0[i as int][c])
                        } else {
                            y0[k][c]
                        } by {
                            assert(rows_of(augmented@)[k] == augmented@[k]@);
                            assert(rows_of(before_combine)[k] == before_combine[k]@);
                            assert(rows_of(before_combine)[i as int] == before_combine[i as int]@);
                            assert(rows_of(before_combine)[j as int] == before_combine[j as int]@);
                        }
                        lemma_left_inverse_combine(&gf, z0, y0, z1, y1, ni, i as int, j as int, factor);
                        zinv = z1;
                    }
                }
            }
            proof {
                assert forall|r: int, c: int| 0 <= r < n && 0 <= c < i + 1 implies #[trigger] augmented@[r]@[c]
                    == if r == c { 1u8 } else { 0u8 } by {
                    if c == i && r != i {
                        assert(augmented@[r]@[i as int] == 0u8);
                    }
                }
            }
        }

        // Extract inverse matrix
        let mut inverse: Vec<Vec<u8>> = Vec::with_capacity(n);
        for i in 0..n
            invariant
                n == matrix@.len(),
                2 * n <= usize::MAX,
                augmented@.len() == n,
                forall|k: int| 0 <= k < n ==> (#[trigger] augmented@[k])@.len() == 2 * n,
                inverse@.len() == i,
                forall|k: int| 0 <= k < i ==> (#[trigger] inverse@[k])@ == augmented@[k]@.subrange(n as int, 2 * n as int),
        {
            inverse.push(copy_range(augmented[i].as_slice(), n, 2 * n));
        }
        proof {
            lemma_rows_of(inverse@);
            lemma_rows_of(augmented@);
            let rows = rows_of(augmented@);
            assert forall|r: int| 0 <= r < ni implies row_tracks(gf, #[trigger] rows[r], mm, ni) by {
                assert(rows[r] == augmented@[r]@);
            }
            assert forall|r: int, c: int| 0 <= r < ni && 0 <= c < ni implies #[trigger] rows[r][c] == if r == c {
                1u8
            } else {
                0u8
            } by {
                assert(rows[r] == augmented@[r]@);
            }
            assert forall|r: int| 0 <= r < ni implies (#[trigger] rows_of(inverse@)[r]) == rows[r].subrange(
                ni,
                2 * ni,
            ) by {
                assert(rows[r] == augmented@[r]@);
            }
            lemma_tracking_identity_inverts(&gf, rows, rows_of(inverse@), mm, ni);
        }
        Ok(inverse)
    }

    /// Requests that `decode` handles without panicking: when there are enough pieces, the
    /// first `d` of them carry indices of the code; when some piece of the code is to be
    /// rebuilt, they hold at least as many bytes as the first; and the pieces rebuilt have
    /// byte sums that fit their 32-bit checksums.
    pub open spec fn decode_accepts(&self, request: ReconstructionRequest) -> bool {
        let d = self.config.data_chunks as nat;
        let avail = request.available_chunks@;
        avail.len() >= d ==> {
            let cs = avail[0].data@.len();
            &&& avail.len() > 0
            &&& forall|c: int|
                0 <= c < d ==> (#[trigger] avail[c]).chunk_index < self.config.data_chunks
                    + self.config.parity_chunks
            &&& self.rebuilds_any(request) ==> forall|c: int| 0 <= c < d ==> (#[trigger] avail[c]).data@.len() >= cs
            &&& self.rebuilt_sums_fit(request)
        }
    }

    /// Some requested index names a piece of the code, so some piece is rebuilt.
    pub open spec fn rebuilds_any(&self, request: ReconstructionRequest) -> bool {
        exists|k: int|
            0 <= k < request.missing_chunk_indices@.len() && #[trigger] request.missing_chunk_indices@[k]
                < self.config.data_chunks + self.config.parity_chunks
    }

    /// Every requested piece of the code, rebuilt with a decoding matrix of the first `d`
    /// available pieces, has a byte sum that fits a 32-bit checksum.
    pub open spec fn rebuilt_sums_fit(&self, request: ReconstructionRequest) -> bool {
        let d = self.config.data_chunks as nat;
        let avail = request.available_chunks@;
        let missing = request.missing_chunk_indices@;
        forall|x: Seq<Seq<u8>>, k: int|
            #![trigger is_left_inverse(self.galois_field, x, self.selected_rows(indices_of(avail)), d as int), missing[k]]
            is_left_inverse(self.galois_field, x, self.selected_rows(indices_of(avail)), d as int) && 0 <= k
                < missing.len() && missing[k] < d + self.config.parity_chunks ==> byte_sum(
                self.rebuilt_data(x, avail, missing[k] as int),
            ) <= u32::MAX
    }

    /// Piece `i` of the encoding of `data`: data piece `i`, or the parity piece that
    /// encoding-matrix row `i` computes.
    pub open spec fn piece_of(&self, data: Seq<u8>, i: int) -> Seq<u8> {
        let d = self.config.data_chunks as nat;
        if i < d {
            data_piece(data, d, i)
        } else {
            parity_piece(self.galois_field, rows_of(self.encoding_matrix@)[i], data, d)
        }
    }

    /// The first `d` available pieces are pieces of an encoding of `data`, each carrying an
    /// index of the code and the bytes of the piece at that index.
    pub open spec fn genuine_pieces(&self, avail: Seq<EncodedChunk>, data: Seq<u8>) -> bool {
        forall|c: int|
            0 <= c < self.config.data_chunks ==> {
                &&& (#[trigger] avail[c]).chunk_index < self.config.data_chunks + self.config.parity_chunks
                &&& avail[c].data@ == self.piece_of(data, avail[c].chunk_index as int)
            }
    }

    /// The bytes of piece `m` as `decode` rebuilds them with the decoding matrix `dm` from the
    /// available pieces: a data piece directly, a parity piece from all rebuilt data pieces.
    pub open spec fn rebuilt_data(&self, dm: Seq<Seq<u8>>, avail: Seq<EncodedChunk>, m: int) -> Seq<u8> {
        let d = self.config.data_chunks as nat;
        let cs = avail[0].data@.len();
        if m < d {
            recon_piece(self.galois_field, dm, avail, m, cs, d)
        } else {
            rebuilt_parity(
                self.galois_field,
                rows_of(self.encoding_matrix@)[m],
                decoded_pieces(self.galois_field, dm, avail, cs, d),
                cs,
                d,
            )
        }
    }

    /// A rebuilt piece, as `decode` reports it.
    pub open spec fn rebuilt_ok(
        &self,
        request: ReconstructionRequest,
        dm: Seq<Seq<u8>>,
        c: EncodedChunk,
        m: u32,
    ) -> bool {
        let d = self.config.data_chunks as nat;
        let avail = request.available_chunks@;
        let cs = avail[0].data@.len();
        &&& c.chunk_id@ == indexed_id(request.original_chunk_id@, m as nat)
        &&& c.chunk_index == m
        &&& c.chunk_type == if m < d { ChunkType::Data } else { ChunkType::Parity }
        &&& c.data@ == self.rebuilt_data(dm, avail, m as int)
        &&& c.metadata.original_size == cs
        &&& c.metadata.checksum@ == checksum_text(c.data@)
        &&& c.metadata.encoding_config == self.config
        &&& c.metadata.chunk_position == m
        &&& c.metadata.total_chunks == self.config.data_chunks + self.config.parity_chunks
    }

    /// Decode/reconstruct data from available chunks. With fewer pieces than data pieces
    /// the result reports the shortfall; otherwise the requested pieces of the code are
    /// rebuilt from the first `d` available ones, and the call fails exactly when the
    /// encoding-matrix rows of those pieces admit no decoding matrix.
    pub fn decode(&mut self, request: ReconstructionRequest) -> (r: Result<ReconstructionResult, RedundancyError>)
        requires
            old(self).wf(),
            old(self).decode_accepts(request),
        ensures
            final(self).wf(),
            final(self).same_code(&*old(self)),
            ({
                let d = old(self).config.data_chunks as nat;
                let avail = request.available_chunks@;
                match r {
                    Ok(res) => if avail.len() < d {
                        &&& !res.success
                        &&& res.reconstructed_chunks@.len() == 0
                        &&& res.error_message matches Some(msg) && msg@ == insufficient_message(d, avail.len())
                        &&& !res.verification_passed
                        &&& final(self).decoding_cache@ == old(self).decoding_cache@
                    } else {
                        let dm = final(self).cached_matrix(indices_of(avail));
                        let kept = kept_missing(
                            request.missing_chunk_indices@,
                            d + old(self).config.parity_chunks as nat,
                        );
                        &&& res.success
                        &&& res.error_message is None
                        &&& res.verification_passed
                        &&& final(self).has_cached(indices_of(avail))
                        &&& old(self).has_cached(indices_of(avail)) ==> final(self).decoding_cache@
                            == old(self).decoding_cache@
                        &&& !old(self).has_cached(indices_of(avail)) ==> {
                            &&& final(self).decoding_cache@.drop_last() == old(self).decoding_cache@
                            &&& final(self).decoding_cache@.len() == old(self).decoding_cache@.len() + 1
                            &&& final(self).decoding_cache@.last().0@ == indices_of(avail)
                        }
                        &&& res.reconstructed_chunks@.len() == kept.len()
                        &&& forall|k: int|
                            0 <= k < kept.len() ==> old(self).rebuilt_ok(
                                request,
                                dm,
                                #[trigger] res.reconstructed_chunks@[k],
                                kept[k],
                            )
                    },
                    Err(e) => {
                        &&& avail.len() >= d
                        &&& e == RedundancyError::MatrixNotInvertible
                        &&& final(self).decoding_cache@ == old(self).decoding_cache@
                        &&& forall|x: Seq<Seq<u8>>|
                            !is_left_inverse(
                                old(self).galois_field,
                                x,
                                old(self).selected_rows(indices_of(avail)),
                                d as int,
                            )
                    },
                }
            }),
    {
        let start_time = instant_now();

        // Verify we have enough chunks for reconstruction
        if request.available_chunks.len() < self.config.data_chunks as usize {
            let mut msg = "Insufficient chunks: need ".to_owned();
            msg = msg.concat(format_decimal(self.config.data_chunks as u64).as_str());
            msg = msg.concat(", have ");
            msg = msg.concat(format_decimal(request.available_chunks.len() as u64).as_str());
            return Ok(ReconstructionResult {
                success: false,
                reconstructed_chunks: Vec::new(),
                reconstruction_time_ms: elapsed_millis(&start_time),
                error_message: Some(msg),
                verification_passed: false,
            });
        }

        let data_chunks = self.config.data_chunks as usize;
        let ghost d = data_chunks as nat;
        let ghost avail = request.available_chunks@;
        let chunk_size = request.available_chunks[0].data.len();

        // Build decoding matrix
        let mut available_indices: Vec<usize> = Vec::with_capacity(request.available_chunks.len());
        for c in 0..request.available_chunks.len()
            invariant
                avail == request.available_chunks@,
                available_indices@ == indices_of(avail).subrange(0, c as int),
        {
            available_indices.push(request.available_chunks[c].chunk_index as usize);
            proof {
                assert(available_indices@ =~= indices_of(avail).subrange(0, c + 1));
            }
        }
        proof {
            assert(available_indices@ =~= indices_of(avail));
        }

        let decoding_matrix = match self.get_or_build_decoding_matrix(available_indices.as_slice()) {
            Ok(m) => m,
            Err(e) => {
                return Err(e);
            },
        };
        let ghost dm = rows_of(decoding_matrix@);
        proof {
            lemma_rows_of(decoding_matrix@);
        }

        // Reconstruct missing data
        let mut reconstructed_data: Vec<Vec<u8>> = Vec::with_capacity(data_chunks);
        for k in 0..data_chunks
            invariant
                reconstructed_data@.len() == k,
        {
            reconstructed_data.push(zeros(chunk_size));
        }

        // Copy available data chunks
        for c in 0..request.available_chunks.len()
            invariant
                reconstructed_data@.len() == data_chunks,
                data_chunks == d,
        {
            let idx = request.available_chunks[c].chunk_index as usize;
            if idx < data_chunks {
                let copy = copy_range(request.available_chunks[c].data.as_slice(), 0, request.available_chunks[c].data.len());
                reconstructed_data.set(idx, copy);
            }
        }

        // Reconstruct missing data chunks
        let missing = &request.missing_chunk_indices;
        for t in 0..missing.len()
            invariant
                self.wf(),
                self.same_code(&*old(self)),
                self.config.data_chunks == d,
                data_chunks == d,
                avail == request.available_chunks@,
                old(self).decode_accepts(request),
                avail.len() >= d,
                chunk_size == avail[0].data@.len(),
                dm == rows_of(decoding_matrix@),
                decoding_matrix@.len() == d,
                forall|k: int| 0 <= k < d ==> (#[trigger] decoding_matrix@[k])@.len() == d,
                reconstructed_data@.len() == d,
                missing@ == request.missing_chunk_indices@,
                forall|u: int|
                    0 <= u < t && missing@[u] < d ==> (#[trigger] reconstructed_data@[missing@[u] as int])@
                        == recon_piece(self.galois_field, dm, avail, missing@[u] as int, chunk_size as nat, d),
        {
            let missing_idx = missing[t] as usize;
            if missing_idx < data_chunks {
                proof {
                    assert(request.missing_chunk_indices@[t as int] < old(self).config.data_chunks
                        + old(self).config.parity_chunks);
                    assert(old(self).rebuilds_any(request));
                }
                let piece = self.rebuild_piece(&decoding_matrix, &request.available_chunks, missing_idx, chunk_size);
                let ghost before = reconstructed_data@;
                reconstructed_data.set(missing_idx, piece);
                proof {
                    assert forall|u: int|
                        0 <= u < t + 1 && missing@[u] < d implies (#[trigger] reconstructed_data@[missing@[u] as int])@
                            == recon_piece(self.galois_field, dm, avail, missing@[u] as int, chunk_size as nat, d) by {
                        if missing@[u] as int != missing_idx as int {
                            assert(reconstructed_data@[missing@[u] as int] == before[missing@[u] as int]);
                        }
                    }
                }
            }
        }

        // Data pieces recovered through the decoding matrix, to rebuild parity pieces from
        let total = data_chunks + self.config.parity_chunks as usize;
        let mut needs_parity = false;
        for t in 0..missing.len()
            invariant
                data_chunks == d,
                needs_parity == exists|u: int| 0 <= u < t && d <= #[trigger] missing@[u] < total,
        {
            let m = missing[t] as usize;
            if m >= data_chunks && m < total {
                needs_parity = true;
            }
        }
        let decoded: Vec<Vec<u8>> = if needs_parity {
            self.decode_all(&decoding_matrix, &request.available_chunks, chunk_size)
        } else {
            Vec::new()
        };
        let ghost pieces = decoded_pieces(self.galois_field, dm, avail, chunk_size as nat, d);

        // Create reconstructed chunk objects
        let mut reconstructed_chunks: Vec<EncodedChunk> = Vec::new();
        for t in 0..missing.len()
            invariant
                self.wf(),
                self.same_code(&*old(self)),
                self.config.data_chunks == d,
                data_chunks == d,
                total == d + self.config.parity_chunks,
                avail == request.available_chunks@,
                old(self).decode_accepts(request),
                avail.len() >= d,
                chunk_size == avail[0].data@.len(),
                reconstructed_data@.len() == d,
                forall|u: int|
                    0 <= u < missing@.len() && missing@[u] < d ==> (#[trigger] reconstructed_data@[missing@[u] as int])@
                        == recon_piece(self.galois_field, dm, avail, missing@[u] as int, chunk_size as nat, d),
                needs_parity == exists|u: int| 0 <= u < missing@.len() && d <= #[trigger] missing@[u] < total,
                is_left_inverse(old(self).galois_field, dm, old(self).selected_rows(indices_of(avail)), d as int),
                missing@ == request.missing_chunk_indices@,
                needs_parity ==> decoded@.len() == d,
                needs_parity ==> forall|k: int| 0 <= k < d ==> (#[trigger] decoded@[k])@ == pieces[k],
                pieces == decoded_pieces(self.galois_field, dm, avail, chunk_size as nat, d),
                reconstructed_chunks@.len() == kept_missing(missing@.subrange(0, t as int), total as nat).len(),
                forall|k: int|
                    0 <= k < reconstructed_chunks@.len() ==> old(self).rebuilt_ok(
                        request,
                        dm,
                        #[trigger] reconstructed_chunks@[k],
                        kept_missing(missing@.subrange(0, t as int), total as nat)[k],
                    ),
                forall|k: int|
                    0 <= k < reconstructed_chunks@.len() ==> byte_sum((#[trigger] reconstructed_chunks@[k]).data@)
                        <= u32::MAX,
        {
            let idx = missing[t] as usize;
            let ghost kept_before = kept_missing(missing@.subrange(0, t as int), total as nat);
            let ghost chunks_before = reconstructed_chunks@;
            proof {
                assert(missing@.subrange(0, t + 1).drop_last() =~= missing@.subrange(0, t as int));
                assert(missing@.subrange(0, t + 1).last() == missing@[t as int]);
            }
            if idx < total {
                let is_data = idx < data_chunks;
                let data = if is_data {
                    copy_range(reconstructed_data[idx].as_slice(), 0, reconstructed_data[idx].len())
                } else {
                    proof {
                        assert(d <= missing@[t as int] < total);
                    }
                    self.rebuild_parity(&decoded, idx, chunk_size)
                };
                proof {
                    if !is_data {
                        assert(decoded@.map_values(|v: Vec<u8>| v@) =~= pieces);
                    } else {
                        assert(reconstructed_data@[missing@[t as int] as int]@ == recon_piece(
                            self.galois_field,
                            dm,
                            avail,
                            missing@[t as int] as int,
                            chunk_size as nat,
                            d,
                        ));
                    }
                    assert(data@ =~= old(self).rebuilt_data(dm, avail, missing@[t as int] as int));
                    assert(old(self).rebuilt_sums_fit(request));
                    assert(is_left_inverse(
                        old(self).galois_field,
                        dm,
                        old(self).selected_rows(indices_of(request.available_chunks@)),
                        (old(self).config.data_chunks as nat) as int,
                    ));
                    assert(idx == missing@[t as int]);
                    assert(request.missing_chunk_indices@[t as int] < d + old(self).config.parity_chunks);
                    assert(byte_sum(old(self).rebuilt_data(dm, avail, missing@[t as int] as int)) <= u32::MAX);
                }
                let checksum = self.calculate_checksum(data.as_slice());
                let piece = EncodedChunk {
                    chunk_id: format_indexed_id(request.original_chunk_id.as_str(), idx as u64),
                    chunk_index: idx as u32,
                    chunk_type: if is_data {
                        ChunkType::Data
                    } else {
                        ChunkType::Parity
                    },
                    data,
                    metadata: ChunkMetadata {
                        original_size: chunk_size,
                        checksum,
                        encoding_config: self.config,
                        chunk_position: idx as u32,
                        total_chunks: self.config.data_chunks + self.config.parity_chunks,
                    },
                    created_at: utc_now_millis(),
                };
                proof {
                    if is_data {
                        assert(reconstructed_data@[missing@[t as int] as int]@ == recon_piece(
                            self.galois_field,
                            dm,
                            avail,
                            missing@[t as int] as int,
                            chunk_size as nat,
                            d,
                        ));
                        assert(piece.data@ =~= reconstructed_data@[idx as int]@);
                    }
                    assert(old(self).rebuilt_ok(request, dm, piece, missing@[t as int]));
                }
                reconstructed_chunks.push(piece);
                proof {
                    let kept_now = kept_missing(missing@.subrange(0, t + 1), total as nat);
                    assert(kept_now == kept_before.push(missing@[t as int]));
                    assert forall|k: int| 0 <= k < reconstructed_chunks@.len() implies old(self).rebuilt_ok(
                        request,
                        dm,
                        #[trigger] reconstructed_chunks@[k],
                        kept_now[k],
                    ) by {
                        if k < chunks_before.len() {
                            assert(reconstructed_chunks@[k] == chunks_before[k]);
                        }
                    }
                }
            } else {
                proof {
                    assert(kept_missing(missing@.subrange(0, t + 1), total as nat) == kept_before);
                }
            }
        }
        proof {
            assert(missing@.subrange(0, missing@.len() as int) =~= missing@);
        }

        // Verify reconstruction
        let verification_passed = match self.verify_reconstruction(&reconstructed_chunks) {
            Ok(v) => v,
            Err(e) => {
                return Err(e);
            },
        };

        Ok(ReconstructionResult {
            success: true,
            reconstructed_chunks,
            reconstruction_time_ms: elapsed_millis(&start_time),
            error_message: None,
            verification_passed,
        })
    }

    /// Data piece `m` rebuilt from the first `d` available pieces.
    fn rebuild_piece(
        &self,
        decoding_matrix: &Vec<Vec<u8>>,
        available: &Vec<EncodedChunk>,
        m: usize,
        chunk_size: usize,
    ) -> (out: Vec<u8>)
        requires
            self.wf(),
            m < self.config.data_chunks,
            decoding_matrix@.len() == self.config.data_chunks,
            forall|k: int| 0 <= k < self.config.data_chunks ==> (#[trigger] decoding_matrix@[k])@.len()
                == self.config.data_chunks,
            available@.len() >= self.config.data_chunks,
            forall|c: int| 0 <= c < self.config.data_chunks ==> (#[trigger] available@[c]).data@.len() >= chunk_size,
        ensures
            out@ == recon_piece(
                self.galois_field,
                rows_of(decoding_matrix@),
                available@,
                m as int,
                chunk_size as nat,
                self.config.data_chunks as nat,
            ),
    {
        let data_chunks = self.config.data_chunks as usize;
        let ghost d = data_chunks as int;
        let ghost dm = rows_of(decoding_matrix@);
        proof {
            lemma_rows_of(decoding_matrix@);
        }
        let mut out: Vec<u8> = Vec::with_capacity(chunk_size);
        for byte_pos in 0..chunk_size
            invariant
                self.wf(),
                data_chunks == d,
                d == self.config.data_chunks,
                m < d,
                dm == rows_of(decoding_matrix@),
                dm.len() == decoding_matrix@.len(),
                decoding_matrix@.len() == d,
                forall|k: int| 0 <= k < d ==> (#[trigger] decoding_matrix@[k])@.len() == d,
                forall|k: int| 0 <= k < d ==> #[trigger] dm[k] == decoding_matrix@[k]@,
                available@.len() >= d,
                forall|c: int| 0 <= c < d ==> (#[trigger] available@[c]).data@.len() >= chunk_size,
                out@.len() == byte_pos,
                forall|b: int|
                    0 <= b < byte_pos ==> #[trigger] out@[b] == recon_byte(self.galois_field, dm, available@, m as int, b, d),
        {
            let mut acc: u8 = 0;
            for col in 0..data_chunks
                invariant
                    self.wf(),
                    data_chunks == d,
                    m < d,
                    byte_pos < chunk_size,
                    decoding_matrix@.len() == d,
                    forall|k: int| 0 <= k < d ==> (#[trigger] decoding_matrix@[k])@.len() == d,
                    forall|k: int| 0 <= k < d ==> #[trigger] dm[k] == decoding_matrix@[k]@,
                    available@.len() >= d,
                    forall|c: int| 0 <= c < d ==> (#[trigger] available@[c]).data@.len() >= chunk_size,
                    acc == recon_byte(self.galois_field, dm, available@, m as int, byte_pos as int, col as int),
            {
                let coeff = decoding_matrix[m][col];
                let data_byte = available[col].data[byte_pos];
                acc = acc ^ self.galois_field.multiply(data_byte, coeff);
            }
            out.push(acc);
        }
        proof {
            assert(out@ =~= recon_piece(self.galois_field, dm, available@, m as int, chunk_size as nat, d as nat));
        }
        out
    }

    /// All `d` data pieces rebuilt from the first `d` available pieces.
    fn decode_all(
        &self,
        decoding_matrix: &Vec<Vec<u8>>,
        available: &Vec<EncodedChunk>,
        chunk_size: usize,
    ) -> (out: Vec<Vec<u8>>)
        requires
            self.wf(),
            decoding_matrix@.len() == self.config.data_chunks,
            forall|k: int| 0 <= k < self.config.data_chunks ==> (#[trigger] decoding_matrix@[k])@.len()
                == self.config.data_chunks,
            available@.len() >= self.config.data_chunks,
            forall|c: int| 0 <= c < self.config.data_chunks ==> (#[trigger] available@[c]).data@.len() >= chunk_size,
        ensures
            out@.len() == self.config.data_chunks,
            forall|k: int|
                0 <= k < self.config.data_chunks ==> (#[trigger] out@[k])@ == decoded_pieces(
                    self.galois_field,
                    rows_of(decoding_matrix@),
                    available@,
                    chunk_size as nat,
                    self.config.data_chunks as nat,
                )[k],
    {
        let data_chunks = self.config.data_chunks as usize;
        let mut out: Vec<Vec<u8>> = Vec::with_capacity(data_chunks);
        for k in 0..data_chunks
            invariant
                self.wf(),
                data_chunks == self.config.data_chunks,
                decoding_matrix@.len() == self.config.data_chunks,
                forall|t: int| 0 <= t < self.config.data_chunks ==> (#[trigger] decoding_matrix@[t])@.len()
                    == self.config.data_chunks,
                available@.len() >= self.config.data_chunks,
                forall|c: int| 0 <= c < self.config.data_chunks ==> (#[trigger] available@[c]).data@.len() >= chunk_size,
                out@.len() == k,
                forall|t: int|
                    0 <= t < k ==> (#[trigger] out@[t])@ == decoded_pieces(
                        self.galois_field,
                        rows_of(decoding_matrix@),
                        available@,
                        chunk_size as nat,
                        self.config.data_chunks as nat,
                    )[t],
        {
            let piece = self.rebuild_piece(decoding_matrix, available, k, chunk_size);
            out.push(piece);
        }
        out
    }

    /// Parity piece `m` recomputed from all `d` data pieces with its encoding-matrix row.
    fn rebuild_parity(&self, decoded: &Vec<Vec<u8>>, m: usize, chunk_size: usize) -> (out: Vec<u8>)
        requires
            self.wf(),
            self.config.data_chunks <= m < self.config.data_chunks + self.config.parity_chunks,
            decoded@.len() == self.config.data_chunks,
            forall|k: int| 0 <= k < self.config.data_chunks ==> (#[trigger] decoded@[k])@.len() == chunk_size,
        ensures
            out@ == rebuilt_parity(
                self.galois_field,
                rows_of(self.encoding_matrix@)[m as int],
                decoded@.map_values(|v: Vec<u8>| v@),
                chunk_size as nat,
                self.config.data_chunks as nat,
            ),
    {
        let data_chunks = self.config.data_chunks as usize;
        let ghost d = data_chunks as int;
        let ghost pieces = decoded@.map_values(|v: Vec<u8>| v@);
        let ghost row = rows_of(self.encoding_matrix@)[m as int];
        proof {
            lemma_rows_of(self.encoding_matrix@);
            assert(row.len() == d);
        }
        let mut out: Vec<u8> = Vec::with_capacity(chunk_size);
        for byte_pos in 0..chunk_size
            invariant
                self.wf(),
                data_chunks == d,
                d == self.config.data_chunks,
                d <= m < self.config.data_chunks + self.config.parity_chunks,
                m < self.encoding_matrix@.len(),
                row == self.encoding_matrix@[m as int]@,
                row.len() == d,
                decoded@.len() == d,
                pieces == decoded@.map_values(|v: Vec<u8>| v@),
                forall|k: int| 0 <= k < d ==> (#[trigger] decoded@[k])@.len() == chunk_size,
                out@.len() == byte_pos,
                forall|b: int| 0 <= b < byte_pos ==> #[trigger] out@[b] == combine_acc(self.galois_field, row, pieces, b, d),
        {
            let mut acc: u8 = 0;
            for col in 0..data_chunks
                invariant
                    self.wf(),
                    data_chunks == d,
                    byte_pos < chunk_size,
                    m < self.encoding_matrix@.len(),
                    row == self.encoding_matrix@[m as int]@,
                    row.len() == d,
                    decoded@.len() == d,
                    pieces == decoded@.map_values(|v: Vec<u8>| v@),
                    forall|k: int| 0 <= k < d ==> (#[trigger] decoded@[k])@.len() == chunk_size,
                    acc == combine_acc(self.galois_field, row, pieces, byte_pos as int, col as int),
            {
                let data_byte = decoded[col][byte_pos];
                let coeff = self.encoding_matrix[m][col];
                acc = acc ^ self.galois_field.multiply(data_byte, coeff);
            }
            out.push(acc);
        }
        proof {
            assert(out@ =~= rebuilt_parity(self.galois_field, row, pieces, chunk_size as nat, d as nat));
        }
        out
    }

    /// Verify reconstruction correctness: every piece's checksum matches its bytes.
    fn verify_reconstruction(&self, chunks: &Vec<EncodedChunk>) -> (r: Result<bool, RedundancyError>)
        requires
            forall|k: int| 0 <= k < chunks@.len() ==> byte_sum((#[trigger] chunks@[k]).data@) <= u32::MAX,
        ensures
            r matches Ok(b) && b == forall|k: int|
                0 <= k < chunks@.len() ==> #[trigger] checksum_text(chunks@[k].data@)
                    == chunks@[k].metadata.checksum@,
    {
        let mut k: usize = 0;
        while k < chunks.len()
            invariant
                k <= chunks@.len(),
                forall|t: int| 0 <= t < chunks@.len() ==> byte_sum((#[trigger] chunks@[t]).data@) <= u32::MAX,
                forall|t: int| 0 <= t < k ==> #[trigger] checksum_text(chunks@[t].data@) == chunks@[t].metadata.checksum@,
            decreases chunks@.len() - k,
        {
            let calculated_checksum = self.calculate_checksum(chunks[k].data.as_slice());
            if calculated_checksum != chunks[k].metadata.checksum {
                return Ok(false);
            }
            k = k + 1;
        }
        // Additional verification could include re-encoding and comparing
        Ok(true)
    }

    /// The decoding matrix for the given piece indices: the cached one, or the inverse of the
    /// encoding-matrix rows that the first `d` indices name, which is then cached.
    fn get_or_build_decoding_matrix(&mut self, available_indices: &[usize]) -> (r: Result<
        Vec<Vec<u8>>,
        RedundancyError,
    >)
        requires
            old(self).wf(),
            available_indices@.len() >= old(self).config.data_chunks,
            forall|c: int|
                0 <= c < old(self).config.data_chunks ==> #[trigger] available_indices@[c]
                    < old(self).config.data_chunks + old(self).config.parity_chunks,
        ensures
            final(self).wf(),
            final(self).same_code(&*old(self)),
            match r {
                Ok(m) => {
                    &&& final(self).has_cached(available_indices@)
                    &&& rows_of(m@) == final(self).cached_matrix(available_indices@)
                    &&& is_left_inverse(
                        old(self).galois_field,
                        rows_of(m@),
                        old(self).selected_rows(available_indices@),
                        old(self).config.data_chunks as int,
                    )
                    &&& m@.len() == old(self).config.data_chunks
                    &&& forall|k: int| 0 <= k < m@.len() ==> (#[trigger] m@[k])@.len() == old(self).config.data_chunks
                    &&& old(self).has_cached(available_indices@) ==> final(self).decoding_cache@
                        == old(self).decoding_cache@
                    &&& !old(self).has_cached(available_indices@) ==> {
                        &&& final(self).decoding_cache@.len() == old(self).decoding_cache@.len() + 1
                        &&& final(self).decoding_cache@.drop_last() == old(self).decoding_cache@
                        &&& final(self).decoding_cache@.last().0@ == available_indices@
                        &&& rows_of(final(self).decoding_cache@.last().1@) == rows_of(m@)
                    }
                },
                Err(e) => {
                    &&& e == RedundancyError::MatrixNotInvertible
                    &&& final(self).decoding_cache@ == old(self).decoding_cache@
                    &&& forall|x: Seq<Seq<u8>>|
                        !is_left_inverse(
                            old(self).galois_field,
                            x,
                            old(self).selected_rows(available_indices@),
                            old(self).config.data_chunks as int,
                        )
                },
            },
    {
        // Check cache first
        let mut e: usize = 0;
        while e < self.decoding_cache.len()
            invariant
                self.wf(),
                *self == *old(self),
                forall|f: int| 0 <= f < e ==> (#[trigger] self.decoding_cache@[f]).0@ != available_indices@,
            decreases self.decoding_cache@.len() - e,
        {
            if same_indices(&self.decoding_cache[e].0, available_indices) {
                let cached = copy_matrix(&self.decoding_cache[e].1);
                proof {
                    lemma_rows_of(cached@);
                    lemma_rows_of(self.decoding_cache@[e as int].1@);
                    assert(rows_of(cached@) =~= rows_of(self.decoding_cache@[e as int].1@));
                    assert(self.cache_entry_ok(self.decoding_cache@[e as int]));
                }
                return Ok(cached);
            }
            e = e + 1;
        }
        let data_chunks = self.config.data_chunks as usize;

        // Build submatrix from encoding matrix using available chunks
        let mut submatrix: Vec<Vec<u8>> = Vec::with_capacity(data_chunks);
        proof {
            lemma_rows_of(self.encoding_matrix@);
        }
        for c in 0..data_chunks
            invariant
                self.wf(),
                data_chunks == self.config.data_chunks,
                available_indices@.len() >= data_chunks,
                forall|t: int|
                    0 <= t < data_chunks ==> #[trigger] available_indices@[t] < self.config.data_chunks
                        + self.config.parity_chunks,
                rows_of(self.encoding_matrix@).len() == self.encoding_matrix@.len(),
                forall|k: int|
                    0 <= k < self.encoding_matrix@.len() ==> #[trigger] rows_of(self.encoding_matrix@)[k]
                        == self.encoding_matrix@[k]@,
                submatrix@.len() == c,
                forall|k: int| 0 <= k < c ==> (#[trigger] submatrix@[k])@.len() == data_chunks,
                forall|k: int|
                    0 <= k < c ==> (#[trigger] submatrix@[k])@ == rows_of(self.encoding_matrix@)[available_indices@[k] as int],
        {
            let idx = available_indices[c];
            proof {
                let rows = rows_of(self.encoding_matrix@);
                assert(rows[idx as int] == self.encoding_matrix@[idx as int]@);
                assert(rows[idx as int].len() == data_chunks);
            }
            let row = copy_range(self.encoding_matrix[idx].as_slice(), 0, self.encoding_matrix[idx].len());
            proof {
                assert(row@ =~= rows_of(self.encoding_matrix@)[idx as int]);
            }
            submatrix.push(row);
        }
        proof {
            lemma_rows_of(submatrix@);
            assert(rows_of(submatrix@) =~= self.selected_rows(available_indices@));
        }

        // Invert the submatrix
        let decoding_matrix = match self.invert_matrix(submatrix) {
            Ok(m) => m,
            Err(err) => {
                return Err(err);
            },
        };

        // Cache the result
        let key = copy_indices(available_indices);
        let stored = copy_matrix(&decoding_matrix);
        let ghost old_cache = self.decoding_cache@;
        self.decoding_cache.push((key, stored));
        proof {
            let n = self.decoding_cache@.len() - 1;
            lemma_rows_of(stored@);
            lemma_rows_of(decoding_matrix@);
            assert(self.decoding_cache@[n].0@ == available_indices@);
            assert forall|e1: int, e2: int|
                0 <= e1 < self.decoding_cache@.len() && 0 <= e2 < self.decoding_cache@.len() && e1 != e2
                implies (#[trigger] self.decoding_cache@[e1]).0@ != (#[trigger] self.decoding_cache@[e2]).0@ by {
                if e1 < n && e2 < n {
                    assert(self.decoding_cache@[e1] == old_cache[e1]);
                    assert(self.decoding_cache@[e2] == old_cache[e2]);
                }
            }
            assert(rows_of(stored@) =~= rows_of(decoding_matrix@));
            assert(self.decoding_cache@[n].1@ == stored@);
            assert forall|f: int| 0 <= f < self.decoding_cache@.len() implies self.cache_entry_ok(
                #[trigger] self.decoding_cache@[f],
            ) by {
                if f < n {
                    assert(self.decoding_cache@[f] == old_cache[f]);
                } else {
                    assert(self.decoding_cache@[f].0@ == available_indices@);
                    assert(rows_of(self.decoding_cache@[f].1@) == rows_of(decoding_matrix@));
                }
            }
            assert(self.has_cached(available_indices@));
            let c = choose|e: int|
                0 <= e < self.decoding_cache@.len() && (#[trigger] self.decoding_cache@[e]).0@ == available_indices@;
            assert(c == n);
            assert(rows_of(stored@) =~= rows_of(decoding_matrix@));
            assert(self.decoding_cache@.drop_last() =~= old_cache);
        }
        Ok(decoding_matrix)
    }

    /// Calculate checksum for data: the byte sum as eight hexadecimal digits.
    pub fn calculate_checksum(&self, data: &[u8]) -> (s: String)
        requires
            byte_sum(data@) <= u32::MAX,
        ensures
            s@ == checksum_text(data@),
    {
        let mut sum: u32 = 0;
        let mut i: usize = 0;
        while i < data.len()
            invariant
                i <= data@.len(),
                byte_sum(data@) <= u32::MAX,
                sum == byte_sum(data@.subrange(0, i as int)),
            decreases data@.len() - i,
        {
            proof {
                lemma_byte_sum_prefix(data@, i as int);
                lemma_byte_sum_prefix_le(data@, i as int + 1);
            }
            sum = sum + data[i] as u32;
            i = i + 1;
        }
        proof {
            assert(data@.subrange(0, data@.len() as int) =~= data@);
        }
        format_hex8(sum)
    }

    /// Get redundancy schemes available
    pub fn get_available_schemes() -> (v: Vec<ReedSolomonConfig>)
        ensures
            v@ == seq![
                standard_config(3, 2),
                standard_config(6, 3),
                standard_config(10, 4),
                standard_config(8, 6),
            ],
    {
        let mut v = Vec::new();
        // Standard schemes
        v.push(ReedSolomonConfig::standard(3, 2));
        v.push(ReedSolomonConfig::standard(6, 3));
        v.push(ReedSolomonConfig::standard(10, 4));
        // High redundancy for critical data
        v.push(ReedSolomonConfig::standard(8, 6));
        v
    }

    /// Calculate fault tolerance: the number of pieces that may be lost.
    pub fn calculate_fault_tolerance(&self) -> (t: u32)
        ensures
            t == self.config.parity_chunks,
    {
        self.config.parity_chunks
    }
}

/// The code is systematic: the data pieces of an encoding, joined in order, are the
/// input followed by zero padding up to a whole number of pieces, so the input is the
/// first bytes of the join.
pub proof fn lemma_encoding_is_systematic(
    codec: &ReedSolomonCodec,
    chunk_id: Seq<char>,
    data: Seq<u8>,
    chunks: Seq<EncodedChunk>,
)
    requires
        codec.config.data_chunks > 0,
        codec.encoding_of(chunk_id, data, chunks),
    ensures
        Seq::new(codec.config.data_chunks as nat, |i: int| chunks[i].data@).flatten() == padded_spec(
            data,
            codec.config.data_chunks as nat,
        ),
        padded_spec(data, codec.config.data_chunks as nat).subrange(0, data.len() as int) == data,
{
    let d = codec.config.data_chunks as nat;
    let sz = piece_len(data.len(), d);
    lemma_piece_bounds(data.len(), d);
    let padded = padded_spec(data, d);
    assert(padded.len() == sz * d);
    lemma_data_pieces_join(codec, chunk_id, data, chunks, d);
    assert(padded.subrange(0, (d * sz) as int) =~= padded) by {
        assert(d * sz == sz * d) by (nonlinear_arith);
    }
    assert(padded.subrange(0, data.len() as int) =~= data);
}

/// The first `k` data pieces of an encoding join to the first `k` pieces' worth of the
/// padded input.
proof fn lemma_data_pieces_join(
    codec: &ReedSolomonCodec,
    chunk_id: Seq<char>,
    data: Seq<u8>,
    chunks: Seq<EncodedChunk>,
    k: nat,
)
    requires
        codec.config.data_chunks > 0,
        codec.encoding_of(chunk_id, data, chunks),
        k <= codec.config.data_chunks,
    ensures
        Seq::new(k, |i: int| chunks[i].data@).flatten() == padded_spec(data, codec.config.data_chunks as nat).subrange(
            0,
            (k * piece_len(data.len(), codec.config.data_chunks as nat)) as int,
        ),
    decreases k,
{
    let d = codec.config.data_chunks as nat;
    let sz = piece_len(data.len(), d);
    let padded = padded_spec(data, d);
    lemma_piece_bounds(data.len(), d);
    if k == 0 {
        assert(Seq::new(0, |i: int| chunks[i].data@) =~= Seq::<Seq<u8>>::empty());
        assert(k * sz == 0) by (nonlinear_arith)
            requires
                k == 0,
        ;
        assert(padded.subrange(0, 0) =~= Seq::<u8>::empty());
    } else {
        let j = (k - 1) as nat;
        lemma_data_pieces_join(codec, chunk_id, data, chunks, j);
        let prev = Seq::new(j, |i: int| chunks[i].data@);
        assert(Seq::new(k, |i: int| chunks[i].data@) =~= prev.push(chunks[j as int].data@));
        prev.lemma_flatten_push(chunks[j as int].data@);
        assert(chunks[j as int].data@ == data_piece(data, d, j as int));
        assert(j * sz + sz == k * sz) by (nonlinear_arith)
            requires
                k == j + 1,
        ;
        assert((j + 1) * sz == k * sz);
        assert(data_piece(data, d, j as int) == padded.subrange((j * sz) as int, (k * sz) as int));
        assert(k * sz <= d * sz) by (nonlinear_arith)
            requires
                k <= d,
        ;
        assert(d * sz == sz * d) by (nonlinear_arith);
        assert(padded.subrange(0, (j * sz) as int) + padded.subrange((j * sz) as int, (k * sz) as int)
            =~= padded.subrange(0, (k * sz) as int));
    }
}

/// The sizes recorded for the data pieces add up to the input length: every piece but the
/// last records a full piece, and the last what remains.
pub proof fn lemma_recorded_sizes_cover_input(len: nat, d: nat)
    requires
        d > 0,
        (d - 1) * piece_len(len, d) <= len,
    ensures
        (d - 1) * piece_len(len, d) + recorded_size(len, d, d - 1) == len,
        forall|i: int| 0 <= i < d - 1 ==> recorded_size(len, d, i) == piece_len(len, d),
{
}

/// Rounding up to whole pieces neither loses input nor adds a whole piece.
proof fn lemma_piece_bounds(len: nat, d: nat)
    requires
        d > 0,
    ensures
        len <= piece_len(len, d) * d,
        piece_len(len, d) * d <= len + d - 1,
{
    let s = piece_len(len, d);
    let n = len + d - 1;
    assert(n == (n / (d as int)) * d + n % (d as int)) by (nonlinear_arith)
        requires d > 0;
    assert(0 <= n % (d as int) < d) by (nonlinear_arith)
        requires d > 0;
    assert(s * d == (n / (d as int)) * d);
}

/// Piece `i` of size `s` lies within `d` pieces.
proof fn lemma_piece_offset(i: int, s: int, d: int)
    requires
        0 <= i < d,
        0 <= s,
    ensures
        0 <= i * s,
        i * s + s <= s * d,
        (i + 1) * s == i * s + s,
{
    assert(i * s + s <= s * d) by (nonlinear_arith)
        requires 0 <= i < d, 0 <= s;
    assert((i + 1) * s == i * s + s) by (nonlinear_arith);
    assert(0 <= i * s) by (nonlinear_arith)
        requires 0 <= i, 0 <= s;
}

/// Byte `j` of piece `k` lies within `d` pieces of size `s`.
proof fn lemma_piece_offset_byte(k: int, j: int, s: int, d: int)
    requires
        0 <= k < d,
        0 <= j < s,
    ensures
        0 <= k * s + j < s * d,
{
    assert(0 <= k * s + j < s * d) by (nonlinear_arith)
        requires 0 <= k < d, 0 <= j < s;
}

/// A byte sum is at most 255 per byte.
proof fn lemma_byte_sum_bound(s: Seq<u8>)
    ensures
        byte_sum(s) <= 255 * s.len(),
    decreases s.len(),
{
    if s.len() > 0 {
        lemma_byte_sum_bound(s.drop_last());
    }
}

/// Extending a prefix by one byte adds that byte to the sum.
proof fn lemma_byte_sum_prefix(s: Seq<u8>, i: int)
    requires
        0 <= i < s.len(),
    ensures
        byte_sum(s.subrange(0, i + 1)) == byte_sum(s.subrange(0, i)) + s[i],
{
    assert(s.subrange(0, i + 1).drop_last() =~= s.subrange(0, i));
}

/// The sum of a prefix is at most the sum of the whole sequence.
proof fn lemma_byte_sum_prefix_le(s: Seq<u8>, i: int)
    requires
        0 <= i <= s.len(),
    ensures
        byte_sum(s.subrange(0, i)) <= byte_sum(s),
    decreases s.len() - i,
{
    if i < s.len() {
        lemma_byte_sum_prefix(s, i);
        lemma_byte_sum_prefix_le(s, i + 1);
    } else {
        assert(s.subrange(0, i) =~= s);
    }
}

/// Byte `j` of a parity piece, accumulated over `k` data pieces, is a sum over them.
proof fn lemma_parity_acc_is_sum(gf: GaloisField, row: Seq<u8>, padded: Seq<u8>, s: int, j: int, k: int)
    requires
        0 <= k,
    ensures
        parity_acc(gf, row, padded, s, j, k) == xor_sum(|t: int| gf.spec_mul(padded[t * s + j], row[t]), k),
    decreases k,
{
    if k > 0 {
        lemma_parity_acc_is_sum(gf, row, padded, s, j, k - 1);
    }
}

/// A rebuilt byte is the sum of the decoding-matrix row times the bytes of the available pieces.
proof fn lemma_recon_byte_is_sum(
    gf: &GaloisField,
    dm: Seq<Seq<u8>>,
    avail: Seq<EncodedChunk>,
    m: int,
    b: int,
    cols: int,
)
    requires
        gf.wf(),
        0 <= cols,
    ensures
        recon_byte(*gf, dm, avail, m, b, cols) == xor_sum(|c: int| gf.spec_mul(dm[m][c], avail[c].data@[b]), cols),
    decreases cols,
{
    if cols > 0 {
        lemma_recon_byte_is_sum(gf, dm, avail, m, b, cols - 1);
        lemma_mul_commutative(gf, avail[cols - 1].data@[b], dm[m][cols - 1]);
    }
}

/// Combining pieces that hold the padded input's bytes is computing a parity byte.
proof fn lemma_combine_matches_parity(
    gf: GaloisField,
    row: Seq<u8>,
    pieces: Seq<Seq<u8>>,
    padded: Seq<u8>,
    s: int,
    b: int,
    k: int,
)
    requires
        0 <= k,
        forall|t: int| 0 <= t < k ==> #[trigger] pieces[t][b] == padded[t * s + b],
    ensures
        combine_acc(gf, row, pieces, b, k) == parity_acc(gf, row, padded, s, b, k),
    decreases k,
{
    if k > 0 {
        lemma_combine_matches_parity(gf, row, pieces, padded, s, b, k - 1);
    }
}

/// Every piece of an encoding holds a piece's worth of bytes, and each of its bytes is the
/// combination of the data pieces' bytes that its encoding-matrix row gives.
proof fn lemma_piece_is_combination(codec: &ReedSolomonCodec, data: Seq<u8>, i: int, b: int)
    requires
        codec.wf(),
        codec.config.data_chunks > 0,
        0 <= i < codec.config.data_chunks + codec.config.parity_chunks,
    ensures
        codec.piece_of(data, i).len() == piece_len(data.len(), codec.config.data_chunks as nat),
        0 <= b < piece_len(data.len(), codec.config.data_chunks as nat) ==> codec.piece_of(data, i)[b] == xor_sum(
            |k: int|
                codec.galois_field.spec_mul(
                    rows_of(codec.encoding_matrix@)[i][k],
                    data_piece(data, codec.config.data_chunks as nat, k)[b],
                ),
            codec.config.data_chunks as int,
        ),
{
    let d = codec.config.data_chunks as nat;
    let s = piece_len(data.len(), d);
    let gf = codec.galois_field;
    let rows = rows_of(codec.encoding_matrix@);
    let padded = padded_spec(data, d);
    lemma_piece_bounds(data.len(), d);
    assert(padded.len() == s * d);
    if i < d {
        lemma_piece_offset(i, s as int, d as int);
    }
    if 0 <= b < s {
        assert forall|k: int| 0 <= k < d implies #[trigger] data_piece(data, d, k)[b] == padded[k * s + b] by {
            lemma_piece_offset(k, s as int, d as int);
        }
        let f = |k: int| gf.spec_mul(rows[i][k], data_piece(data, d, k)[b]);
        if i < d {
            assert(rows[i] == unit_row(d, i));
            assert forall|k: int| 0 <= k < d && k != i implies #[trigger] f(k) == 0 by {
                lemma_mul_identity(&gf, data_piece(data, d, k)[b]);
            }
            lemma_xor_sum_single(f, i, d as int);
            lemma_mul_identity(&gf, data_piece(data, d, i)[b]);
        } else {
            let row = rows[i];
            lemma_parity_acc_is_sum(gf, row, padded, s as int, b, d as int);
            assert forall|k: int| 0 <= k < d implies #[trigger] gf.spec_mul(padded[k * s + b], row[k]) == f(k) by {
                lemma_mul_commutative(&gf, padded[k * s + b], row[k]);
            }
            lemma_xor_sum_ext(|k: int| gf.spec_mul(padded[k * s + b], row[k]), f, d as int);
        }
    }
}

/// Data piece `k` rebuilt with a left inverse of the available pieces' encoding rows is data
/// piece `k` of the encoding.
proof fn lemma_recovered_data_piece(
    codec: &ReedSolomonCodec,
    avail: Seq<EncodedChunk>,
    data: Seq<u8>,
    k: int,
    dm: Seq<Seq<u8>>,
)
    requires
        codec.wf(),
        codec.config.data_chunks > 0,
        avail.len() >= codec.config.data_chunks,
        forall|c: int|
            0 <= c < codec.config.data_chunks ==> {
                &&& (#[trigger] avail[c]).chunk_index < codec.config.data_chunks + codec.config.parity_chunks
                &&& avail[c].data@ == codec.piece_of(data, avail[c].chunk_index as int)
            },
        is_left_inverse(
            codec.galois_field,
            dm,
            codec.selected_rows(indices_of(avail)),
            codec.config.data_chunks as int,
        ),
        0 <= k < codec.config.data_chunks,
    ensures
        recon_piece(
            codec.galois_field,
            dm,
            avail,
            k,
            piece_len(data.len(), codec.config.data_chunks as nat),
            codec.config.data_chunks as nat,
        ) == data_piece(data, codec.config.data_chunks as nat, k),
{
    let d = codec.config.data_chunks as nat;
    let s = piece_len(data.len(), d);
    let gf = codec.galois_field;
    let rows = rows_of(codec.encoding_matrix@);
    let key = indices_of(avail);
    let esel = codec.selected_rows(key);
    lemma_piece_is_combination(codec, data, k, 0);
    assert forall|b: int| 0 <= b < s implies #[trigger] recon_piece(gf, dm, avail, k, s, d)[b] == data_piece(
        data,
        d,
        k,
    )[b] by {
        let x = Seq::new(d, |t: int| data_piece(data, d, t)[b]);
        let y = Seq::new(d, |c: int| avail[c].data@[b]);
        assert forall|c: int| 0 <= c < d implies #[trigger] y[c] == xor_sum(
            |t: int| gf.spec_mul(esel[c][t], x[t]),
            d as int,
        ) by {
            let i = avail[c].chunk_index as int;
            lemma_piece_is_combination(codec, data, i, b);
            assert(esel[c] == rows[i]);
            lemma_xor_sum_ext(
                |t: int| gf.spec_mul(rows[i][t], data_piece(data, d, t)[b]),
                |t: int| gf.spec_mul(esel[c][t], x[t]),
                d as int,
            );
        }
        lemma_left_inverse_recovers(&gf, dm, esel, x, y, d as int, k);
        lemma_recon_byte_is_sum(&gf, dm, avail, k, b, d as int);
        lemma_xor_sum_ext(
            |c: int| gf.spec_mul(dm[k][c], avail[c].data@[b]),
            |c: int| gf.spec_mul(dm[k][c], y[c]),
            d as int,
        );
    }
    assert(recon_piece(gf, dm, avail, k, s, d) =~= data_piece(data, d, k));
}

/// Rebuilding undoes encoding: when the first `d` available pieces are pieces of an
/// encoding of `data`, each carrying its own index, every piece rebuilt with any left
/// inverse of their encoding-matrix rows is the piece of that encoding at the same index,
/// data and parity pieces alike.
pub proof fn lemma_rebuilt_is_encoded(
    codec: &ReedSolomonCodec,
    avail: Seq<EncodedChunk>,
    data: Seq<u8>,
    m: int,
    dm: Seq<Seq<u8>>,
)
    requires
        codec.wf(),
        codec.config.data_chunks > 0,
        avail.len() >= codec.config.data_chunks,
        codec.genuine_pieces(avail, data),
        is_left_inverse(
            codec.galois_field,
            dm,
            codec.selected_rows(indices_of(avail)),
            codec.config.data_chunks as int,
        ),
        0 <= m < codec.config.data_chunks + codec.config.parity_chunks,
    ensures
        codec.rebuilt_data(dm, avail, m) == codec.piece_of(data, m),
{
    let d = codec.config.data_chunks as nat;
    let s = piece_len(data.len(), d);
    let gf = codec.galois_field;
    let rows = rows_of(codec.encoding_matrix@);
    lemma_piece_is_combination(codec, data, avail[0].chunk_index as int, 0);
    assert(avail[0].data@.len() == s);
    if m < d {
        lemma_recovered_data_piece(codec, avail, data, m, dm);
    } else {
        let pieces = decoded_pieces(gf, dm, avail, s, d);
        let row = rows[m];
        let padded = padded_spec(data, d);
        lemma_piece_bounds(data.len(), d);
        assert(padded.len() == s * d);
        assert forall|t: int| 0 <= t < d implies #[trigger] pieces[t] == data_piece(data, d, t) by {
            lemma_recovered_data_piece(codec, avail, data, t, dm);
        }
        assert forall|b: int| 0 <= b < s implies #[trigger] rebuilt_parity(gf, row, pieces, s, d)[b]
            == parity_piece(gf, row, data, d)[b] by {
            assert forall|t: int| 0 <= t < d implies #[trigger] pieces[t][b] == padded[t * s + b] by {
                lemma_piece_offset(t, s as int, d as int);
                assert(pieces[t] == data_piece(data, d, t));
            }
            lemma_combine_matches_parity(gf, row, pieces, padded, s as int, b, d as int);
        }
        assert(rebuilt_parity(gf, row, pieces, s, d) =~= parity_piece(gf, row, data, d));
    }
}

/// Reconstruction undoes encoding: when the first `d` available pieces are pieces of an
/// encoding of `data`, each carrying its own index, every piece rebuilt with the decoding
/// matrix that the codec caches for their indices is the piece of that encoding at the same
/// index, data and parity pieces alike.
pub proof fn lemma_decode_recovers_encoding(
    codec: &ReedSolomonCodec,
    avail: Seq<EncodedChunk>,
    data: Seq<u8>,
    m: int,
)
    requires
        codec.wf(),
        codec.config.data_chunks > 0,
        avail.len() >= codec.config.data_chunks,
        codec.has_cached(indices_of(avail)),
        codec.genuine_pieces(avail, data),
        0 <= m < codec.config.data_chunks + codec.config.parity_chunks,
    ensures
        codec.rebuilt_data(codec.cached_matrix(indices_of(avail)), avail, m) == codec.piece_of(data, m),
{
    let key = indices_of(avail);
    let e = choose|e: int| 0 <= e < codec.decoding_cache@.len() && (#[trigger] codec.decoding_cache@[e]).0@ == key;
    assert(codec.cache_entry_ok(codec.decoding_cache@[e]));
    lemma_rebuilt_is_encoded(codec, avail, data, m, codec.cached_matrix(key));
}

/// A request made of genuine pieces of an encoding that `encode` accepts is one that
/// `decode` accepts: the pieces carry indices of the code and equal lengths, and every piece
/// rebuilt from them is a piece of the encoding, whose byte sum fits its checksum.
pub proof fn lemma_genuine_request_accepted(codec: &ReedSolomonCodec, request: ReconstructionRequest, data: Seq<u8>)
    requires
        codec.wf(),
        codec.encode_accepts(data),
        request.available_chunks@.len() >= codec.config.data_chunks,
        codec.genuine_pieces(request.available_chunks@, data),
    ensures
        codec.decode_accepts(request),
{
    let d = codec.config.data_chunks as nat;
    let p = codec.config.parity_chunks as nat;
    let avail = request.available_chunks@;
    let missing = request.missing_chunk_indices@;
    let s = piece_len(data.len(), d);
    assert forall|c: int| 0 <= c < d implies (#[trigger] avail[c]).data@.len() == s by {
        lemma_piece_is_combination(codec, data, avail[c].chunk_index as int, 0);
    }
    assert(avail[0].data@.len() == s);
    assert forall|x: Seq<Seq<u8>>, k: int|
        is_left_inverse(codec.galois_field, x, codec.selected_rows(indices_of(avail)), d as int) && 0 <= k
            < missing.len() && missing[k] < d + p implies byte_sum(
        codec.rebuilt_data(x, avail, missing[k] as int),
    ) <= u32::MAX by {
        lemma_rebuilt_is_encoded(codec, avail, data, missing[k] as int, x);
        assert(byte_sum(codec.piece_of(data, missing[k] as int)) <= u32::MAX);
    }
    assert(codec.rebuilt_sums_fit(request));
}

/// Every kept index is below the bound.
proof fn lemma_kept_in_range(missing: Seq<u32>, bound: nat, k: int)
    requires
        0 <= k < kept_missing(missing, bound).len(),
    ensures
        kept_missing(missing, bound)[k] < bound,
    decreases missing.len(),
{
    let rest = kept_missing(missing.drop_last(), bound);
    if k < rest.len() {
        lemma_kept_in_range(missing.drop_last(), bound, k);
    }
}

/// Reconstruction gives back the encoding, end to end: when `decode` succeeds on genuine
/// pieces of an encoding of `data` and reports the pieces it rebuilt, with the codec it
/// leaves behind, every rebuilt piece is the piece of that encoding at its index.
pub proof fn lemma_decoded_pieces_are_encoded(
    codec: &ReedSolomonCodec,
    request: ReconstructionRequest,
    data: Seq<u8>,
    rebuilt: Seq<EncodedChunk>,
)
    requires
        codec.wf(),
        codec.config.data_chunks > 0,
        request.available_chunks@.len() >= codec.config.data_chunks,
        codec.genuine_pieces(request.available_chunks@, data),
        codec.has_cached(indices_of(request.available_chunks@)),
        rebuilt.len() == kept_missing(
            request.missing_chunk_indices@,
            (codec.config.data_chunks + codec.config.parity_chunks) as nat,
        ).len(),
        forall|k: int|
            0 <= k < rebuilt.len() ==> codec.rebuilt_ok(
                request,
                codec.cached_matrix(indices_of(request.available_chunks@)),
                #[trigger] rebuilt[k],
                kept_missing(
                    request.missing_chunk_indices@,
                    (codec.config.data_chunks + codec.config.parity_chunks) as nat,
                )[k],
            ),
    ensures
        forall|k: int|
            0 <= k < rebuilt.len() ==> {
                let m = kept_missing(
                    request.missing_chunk_indices@,
                    (codec.config.data_chunks + codec.config.parity_chunks) as nat,
                )[k];
                &&& (#[trigger] rebuilt[k]).chunk_index == m
                &&& rebuilt[k].data@ == codec.piece_of(data, m as int)
            },
{
    let total = (codec.config.data_chunks + codec.config.parity_chunks) as nat;
    let kept = kept_missing(request.missing_chunk_indices@, total);
    assert forall|k: int| 0 <= k < rebuilt.len() implies {
        &&& (#[trigger] rebuilt[k]).chunk_index == kept[k]
        &&& rebuilt[k].data@ == codec.piece_of(data, kept[k] as int)
    } by {
        assert(codec.rebuilt_ok(request, codec.cached_matrix(indices_of(request.available_chunks@)), rebuilt[k], kept[k]));
        lemma_kept_in_range(request.missing_chunk_indices@, total, k);
        lemma_decode_recovers_encoding(codec, request.available_chunks@, data, kept[k] as int);
    }
}

/// Whether two index lists are equal.
fn same_indices(a: &Vec<usize>, b: &[usize]) -> (r: bool)
    ensures
        r == (a@ == b@),
{
    if a.len() != b.len() {
        return false;
    }
    let mut k: usize = 0;
    while k < a.len()
        invariant
            a@.len() == b@.len(),
            k <= a@.len(),
            forall|t: int| 0 <= t < k ==> a@[t] == b@[t],
        decreases a@.len() - k,
    {
        if a[k] != b[k] {
            return false;
        }
        k = k + 1;
    }
    proof {
        assert(a@ =~= b@);
    }
    true
}

/// A copy of an index list.
fn copy_indices(v: &[usize]) -> (r: Vec<usize>)
    ensures
        r@ == v@,
{
    let mut r: Vec<usize> = Vec::with_capacity(v.len());
    let mut k: usize = 0;
    while k < v.len()
        invariant
            k <= v@.len(),
            r@ == v@.subrange(0, k as int),
        decreases v@.len() - k,
    {
        r.push(v[k]);
        k = k + 1;
        proof {
            assert(r@ =~= v@.subrange(0, k as int));
        }
    }
    proof {
        assert(r@ =~= v@);
    }
    r
}

/// A copy of a matrix, row by row.
fn copy_matrix(m: &Vec<Vec<u8>>) -> (r: Vec<Vec<u8>>)
    ensures
        r@.len() == m@.len(),
        forall|k: int| 0 <= k < m@.len() ==> (#[trigger] r@[k])@ == m@[k]@,
{
    let mut r: Vec<Vec<u8>> = Vec::with_capacity(m.len());
    let mut k: usize = 0;
    while k < m.len()
        invariant
            k <= m@.len(),
            r@.len() == k,
            forall|t: int| 0 <= t < k ==> (#[trigger] r@[t])@ == m@[t]@,
        decreases m@.len() - k,
    {
        r.push(copy_range(m[k].as_slice(), 0, m[k].len()));
        k = k + 1;
    }
    r
}

/// Exchanges two rows of a matrix.
fn swap_rows(m: &mut Vec<Vec<u8>>, a: usize, b: usize)
    requires
        a < old(m)@.len(),
        b < old(m)@.len(),
    ensures
        rows_of(final(m)@) == rows_of(old(m)@).update(a as int, old(m)@[b as int]@).update(
            b as int,
            old(m)@[a as int]@,
        ),
{
    let row_a = copy_range(m[a].as_slice(), 0, m[a].len());
    let row_b = copy_range(m[b].as_slice(), 0, m[b].len());
    proof {
        assert(row_a@ =~= m@[a as int]@);
        assert(row_b@ =~= m@[b as int]@);
    }
    let ghost before = rows_of(m@);
    m.set(a, row_b);
    m.set(b, row_a);
    proof {
        assert(rows_of(m@) =~= before.update(a as int, row_b@).update(b as int, row_a@));
    }
}

/// `data` followed by zeros up to `size` bytes.
fn pad_with_zeros(data: &[u8], size: usize) -> (r: Vec<u8>)
    requires
        data@.len() <= size,
    ensures
        r@ == data@ + Seq::new((size - data@.len()) as nat, |k: int| 0u8),
{
    let mut r: Vec<u8> = Vec::with_capacity(size);
    let mut k: usize = 0;
    while k < size
        invariant
            k <= size,
            data@.len() <= size,
            r@ == (data@ + Seq::new((size - data@.len()) as nat, |t: int| 0u8)).subrange(0, k as int),
        decreases size - k,
    {
        if k < data.len() {
            r.push(data[k]);
        } else {
            r.push(0u8);
        }
        k = k + 1;
        proof {
            assert(r@ =~= (data@ + Seq::new((size - data@.len()) as nat, |t: int| 0u8)).subrange(0, k as int));
        }
    }
    proof {
        assert(r@ =~= data@ + Seq::new((size - data@.len()) as nat, |t: int| 0u8));
    }
    r
}

} // verus!
