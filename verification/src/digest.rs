//! Cryptographic digests and their hexadecimal rendering, through the outside
//! crates `sha2`, `ring`, `blake3` and `hex`.

use vstd::prelude::*;
use crate::text::hex_fixed;

verus! {

/// The lowercase hexadecimal rendering of a byte string: two digits per byte.
pub open spec fn hex_lower(bytes: Seq<u8>) -> Seq<char>
    decreases bytes.len(),
{
    if bytes.len() == 0 {
        Seq::empty()
    } else {
        hex_lower(bytes.drop_last()) + hex_fixed(bytes.last() as nat, 2)
    }
}

/// The SHA-256 digest of `data`, as `sha2` computes it.
pub uninterp spec fn sha2_sha256(data: Seq<u8>) -> Seq<u8>;

/// The digest that `ring::digest::digest` computes with the algorithm of the given code
/// (see `RingAlgorithm::code`).
pub uninterp spec fn ring_digest_of(algorithm: u8, data: Seq<u8>) -> Seq<u8>;

/// The BLAKE3 hash of `data`, as `blake3` computes it.
pub uninterp spec fn blake3_hash(data: Seq<u8>) -> Seq<u8>;

/// The largest input, in bytes, that SHA-256 accepts (2^61 - 1).
pub open spec fn sha256_max_input() -> nat {
    0x1fff_ffff_ffff_ffff
}

/// SHA-256 of a byte slice.
///
/// Trusted: `<sha2::Sha256 as Digest>::digest` returns the 32-byte SHA-256 digest of its
/// input, a function of the input alone.
#[verifier::external_body]
pub(crate) fn sha256_digest(data: &[u8]) -> (r: Vec<u8>)
    ensures
        r@ == sha2_sha256(data@),
        r@.len() == 32,
{
    <sha2::Sha256 as sha2::Digest>::digest(data).to_vec()
}

/// Lowercase hexadecimal encoding.
///
/// Trusted: `hex::encode` renders every byte as two lowercase hexadecimal digits, high
/// nibble first, in order.
#[verifier::external_body]
pub(crate) fn hex_encode(bytes: &[u8]) -> (r: String)
    ensures
        r@ == hex_lower(bytes@),
{
    hex::encode(bytes)
}

/// The digest algorithms of `ring` that the library uses.
#[derive(Clone, Copy, PartialEq, Eq, Debug)]
pub enum RingAlgorithm {
    Sha256,
    Sha512,
}

impl RingAlgorithm {
    /// A number that identifies the algorithm in specifications.
    pub open spec fn code(self) -> u8 {
        match self {
            RingAlgorithm::Sha256 => 0,
            RingAlgorithm::Sha512 => 1,
        }
    }

    /// Length of the digest in bytes.
    pub open spec fn output_len(self) -> nat {
        match self {
            RingAlgorithm::Sha256 => 32,
            RingAlgorithm::Sha512 => 64,
        }
    }
}

/// A `ring` digest of a byte slice.
///
/// Trusted: `ring::digest::digest` returns the digest of the whole input with the given
/// algorithm (32 bytes for SHA-256, 64 for SHA-512), a function of algorithm and input
/// alone. It panics on inputs longer than the algorithm accepts; `requires` keeps inputs
/// below the SHA-256 limit, which is also below the SHA-512 one.
#[verifier::external_body]
pub(crate) fn ring_digest(algorithm: RingAlgorithm, data: &[u8]) -> (r: Vec<u8>)
    requires
        data@.len() <= sha256_max_input(),
    ensures
        r@ == ring_digest_of(algorithm.code(), data@),
        r@.len() == algorithm.output_len(),
{
    let alg = match algorithm {
        RingAlgorithm::Sha256 => &ring::digest::SHA256,
        RingAlgorithm::Sha512 => &ring::digest::SHA512,
    };
    ring::digest::digest(alg, data).as_ref().to_vec()
}

/// BLAKE3 of a byte slice.
///
/// Trusted: `blake3::hash` returns the 32-byte BLAKE3 hash of its input, a function of the
/// input alone (the same value as feeding the input to `blake3::Hasher` piece by piece).
#[verifier::external_body]
pub(crate) fn blake3_digest(data: &[u8]) -> (r: Vec<u8>)
    ensures
        r@ == blake3_hash(data@),
        r@.len() == 32,
{
    blake3::hash(data).as_bytes().to_vec()
}

/// An incremental SHA-256 computation over the bytes fed to it so far.
///
/// The `sha2` hasher is held in a private field: Verus cannot declare `sha2::Sha256`, an
/// alias of a generic wrapper type whose parameters are bound by outside traits.
#[verifier::external_body]
pub struct Sha256Stream {
    inner: sha2::Sha256,
}

/// The bytes fed to a streaming SHA-256 computation so far, in order.
pub uninterp spec fn sha256_stream_input(s: Sha256Stream) -> Seq<u8>;

impl Sha256Stream {
    /// A computation that has been fed nothing.
    ///
    /// Trusted: `<sha2::Sha256 as Digest>::new` starts a hash over the empty input.
    #[verifier::external_body]
    pub(crate) fn new() -> (r: Self)
        ensures
            sha256_stream_input(r) == Seq::<u8>::empty(),
    {
        Sha256Stream { inner: <sha2::Sha256 as sha2::Digest>::new() }
    }

    /// Feeds `data` after what was fed before.
    ///
    /// Trusted: `Digest::update` appends `data` to the input the hash is computed over.
    #[verifier::external_body]
    pub(crate) fn update(&mut self, data: &[u8])
        ensures
            sha256_stream_input(*final(self)) == sha256_stream_input(*old(self)) + data@,
    {
        sha2::Digest::update(&mut self.inner, data);
    }

    /// The digest of everything fed so far.
    ///
    /// Trusted: `Digest::finalize` returns the 32-byte SHA-256 of the concatenation of all
    /// the input fed, the same value `Sha256::digest` gives for that concatenation.
    #[verifier::external_body]
    pub(crate) fn finalize(self) -> (r: Vec<u8>)
        ensures
            r@ == sha2_sha256(sha256_stream_input(self)),
            r@.len() == 32,
    {
        sha2::Digest::finalize(self.inner).to_vec()
    }
}

/// The lowercase hexadecimal SHA-256 of `data`, the content hash the storage layer uses.
pub open spec fn sha256_hex(data: Seq<u8>) -> Seq<char> {
    hex_lower(sha2_sha256(data))
}

/// Hexadecimal SHA-256 of a byte slice.
pub fn sha256_hex_of(data: &[u8]) -> (r: String)
    ensures
        r@ == sha256_hex(data@),
{
    let d = sha256_digest(data);
    hex_encode(d.as_slice())
}

/// A hex rendering has two characters per byte.
pub proof fn lemma_hex_lower_len(bytes: Seq<u8>)
    ensures
        hex_lower(bytes).len() == 2 * bytes.len(),
    decreases bytes.len(),
{
    if bytes.len() > 0 {
        lemma_hex_lower_len(bytes.drop_last());
        lemma_hex_fixed_len(bytes.last() as nat, 2);
    }
}

/// Hex rendering distributes over concatenation.
pub proof fn lemma_hex_lower_concat(a: Seq<u8>, b: Seq<u8>)
    ensures
        hex_lower(a + b) == hex_lower(a) + hex_lower(b),
    decreases b.len(),
{
    if b.len() == 0 {
        assert(a + b =~= a);
        assert(hex_lower(a) + hex_lower(b) =~= hex_lower(a));
    } else {
        lemma_hex_lower_concat(a, b.drop_last());
        assert((a + b).drop_last() =~= a + b.drop_last());
        assert((a + b).last() == b.last());
        assert(hex_lower(a) + hex_lower(b) =~= hex_lower(a) + hex_lower(b.drop_last()) + hex_fixed(b.last() as nat, 2));
    }
}

/// A fixed-width rendering has exactly `width` characters.
pub proof fn lemma_hex_fixed_len(n: nat, width: nat)
    ensures
        hex_fixed(n, width).len() == width,
    decreases width,
{
    if width > 0 {
        lemma_hex_fixed_len(n / 16, (width - 1) as nat);
    }
}

} // verus!
