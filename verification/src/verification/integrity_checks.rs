//! Content-blind integrity evidence for encrypted content: SHA-256 and SHA-512 digests,
//! a Merkle root over 4 KiB pieces, and a completeness proof made of position-weighted
//! coefficients, XOR parity, segment checksums and a byte-distribution fingerprint.
//!
//! Every piece of evidence is a function of the content alone, so recomputing it from
//! the same content always reproduces it.

use vstd::prelude::*;
use crate::digest::{RingAlgorithm, ring_digest, ring_digest_of, sha256_max_input};
use crate::bytes::{concat_bytes, copy_range};
use crate::storage::file_chunker::{piece_count, piece_of};
use crate::storage::metadata_store::{le_bytes, le_bytes_of};
use crate::security::chunk_isolation::new_chunk_id;

verus! {

/// Mathematical proof of content completeness.
#[derive(Debug, Clone, PartialEq, Eq)]
pub struct CompletenessProof {
    /// Polynomial coefficients for content verification
    pub polynomial_coefficients: Vec<u64>,
    /// Parity data (XOR of the bytes at each position modulo 16)
    pub parity_data: Vec<u8>,
    /// Checksum verification values
    pub verification_checksums: Vec<u32>,
    /// Content distribution fingerprint
    pub distribution_fingerprint: Vec<u8>,
}

/// Number of polynomial coefficients.
pub const POLY_DEGREE: usize = 8;

/// Number of parity bytes.
pub const PARITY_SIZE: usize = 16;

/// Number of segment checksums.
pub const CHECKSUM_COUNT: usize = 4;

/// Size of the pieces the Merkle tree is built over.
pub const MERKLE_PIECE_SIZE: usize = 4096;

/// SHA-256 as `ring` computes it.
pub open spec fn ring_sha256(data: Seq<u8>) -> Seq<u8> {
    ring_digest_of(RingAlgorithm::Sha256.code(), data)
}

/// SHA-512 as `ring` computes it.
pub open spec fn ring_sha512(data: Seq<u8>) -> Seq<u8> {
    ring_digest_of(RingAlgorithm::Sha512.code(), data)
}

/// The polynomial coefficients of `s`: each byte, at position `i`, is added to
/// coefficient `i mod 8`, which is then multiplied by `i + 1`, both wrapping.
pub open spec fn poly_coefficients(s: Seq<u8>) -> Seq<u64>
    decreases s.len(),
{
    if s.len() == 0 {
        Seq::new(POLY_DEGREE as nat, |k: int| 0u64)
    } else {
        let c = poly_coefficients(s.drop_last());
        let i = s.len() - 1;
        let k = i % (POLY_DEGREE as int);
        c.update(
            k,
            vstd::wrapping::u64_specs::wrapping_mul(
                vstd::wrapping::u64_specs::wrapping_add(c[k], s.last() as u64),
                (i + 1) as u64,
            ),
        )
    }
}

/// There are always eight coefficients.
pub proof fn lemma_poly_len(s: Seq<u8>)
    ensures
        poly_coefficients(s).len() == POLY_DEGREE,
    decreases s.len(),
{
    if s.len() > 0 {
        lemma_poly_len(s.drop_last());
    }
}

/// Computes the polynomial coefficients of the content.
pub fn compute_polynomial_coefficients(content: &[u8]) -> (c: Vec<u64>)
    ensures
        c@ == poly_coefficients(content@),
{
    let mut c: Vec<u64> = Vec::new();
    let mut k: usize = 0;
    while k < POLY_DEGREE
        invariant
            k <= POLY_DEGREE,
            c@ == Seq::new(k as nat, |t: int| 0u64),
        decreases POLY_DEGREE - k,
    {
        c.push(0);
        k = k + 1;
        proof {
            assert(c@ =~= Seq::new(k as nat, |t: int| 0u64));
        }
    }
    proof {
        assert(content@.subrange(0, 0) =~= Seq::<u8>::empty());
    }
    let n = content.len();
    let mut i: usize = 0;
    while i < n
        invariant
            n == content@.len(),
            i <= n,
            c@ == poly_coefficients(content@.subrange(0, i as int)),
        decreases n - i,
    {
        proof {
            lemma_poly_len(content@.subrange(0, i as int));
            assert(content@.subrange(0, i + 1).drop_last() =~= content@.subrange(0, i as int));
        }
        let idx = i % POLY_DEGREE;
        let updated = c[idx].wrapping_add(content[i] as u64).wrapping_mul(i as u64 + 1);
        c.set(idx, updated);
        i = i + 1;
    }
    proof {
        assert(content@.subrange(0, n as int) =~= content@);
    }
    c
}

/// The parity of `s`: byte `k` is the XOR of the bytes at positions congruent to `k`
/// modulo 16.
pub open spec fn parity_of(s: Seq<u8>) -> Seq<u8>
    decreases s.len(),
{
    if s.len() == 0 {
        Seq::new(PARITY_SIZE as nat, |k: int| 0u8)
    } else {
        let p = parity_of(s.drop_last());
        let k = (s.len() - 1) % (PARITY_SIZE as int);
        p.update(k, p[k] ^ s.last())
    }
}

/// There are always sixteen parity bytes.
pub proof fn lemma_parity_len(s: Seq<u8>)
    ensures
        parity_of(s).len() == PARITY_SIZE,
    decreases s.len(),
{
    if s.len() > 0 {
        lemma_parity_len(s.drop_last());
    }
}

/// Computes the XOR parity of the content.
pub fn generate_parity(content: &[u8]) -> (p: Vec<u8>)
    ensures
        p@ == parity_of(content@),
{
    let mut p: Vec<u8> = Vec::new();
    let mut k: usize = 0;
    while k < PARITY_SIZE
        invariant
            k <= PARITY_SIZE,
            p@ == Seq::new(k as nat, |t: int| 0u8),
        decreases PARITY_SIZE - k,
    {
        p.push(0);
        k = k + 1;
        proof {
            assert(p@ =~= Seq::new(k as nat, |t: int| 0u8));
        }
    }
    proof {
        assert(content@.subrange(0, 0) =~= Seq::<u8>::empty());
    }
    let n = content.len();
    let mut i: usize = 0;
    while i < n
        invariant
            n == content@.len(),
            i <= n,
            p@ == parity_of(content@.subrange(0, i as int)),
        decreases n - i,
    {
        proof {
            lemma_parity_len(content@.subrange(0, i as int));
            assert(content@.subrange(0, i + 1).drop_last() =~= content@.subrange(0, i as int));
        }
        let idx = i % PARITY_SIZE;
        let updated = p[idx] ^ content[i];
        p.set(idx, updated);
        i = i + 1;
    }
    proof {
        assert(content@.subrange(0, n as int) =~= content@);
    }
    p
}

/// The checksum of one segment: for each byte in turn, add it and multiply by 31, both
/// wrapping.
pub open spec fn segment_checksum(s: Seq<u8>) -> u32
    decreases s.len(),
{
    if s.len() == 0 {
        0
    } else {
        vstd::wrapping::u32_specs::wrapping_mul(
            vstd::wrapping::u32_specs::wrapping_add(segment_checksum(s.drop_last()), s.last() as u32),
            31,
        )
    }
}

/// Segment `i` of four: bytes `[len*i/4, len*(i+1)/4)`.
pub open spec fn segment(s: Seq<u8>, i: int) -> Seq<u8> {
    s.subrange(s.len() * i / (CHECKSUM_COUNT as int), s.len() * (i + 1) / (CHECKSUM_COUNT as int))
}

/// The four segment checksums of `s`.
pub open spec fn verification_checksums(s: Seq<u8>) -> Seq<u32> {
    Seq::new(CHECKSUM_COUNT as nat, |i: int| segment_checksum(segment(s, i)))
}

/// The segment bounds are ordered and within the content.
proof fn lemma_segment_bounds(len: nat, i: nat)
    requires
        i < CHECKSUM_COUNT,
    ensures
        0 <= len * i / 4 <= len * (i + 1) / 4 <= len,
{
    assert(len * i <= len * (i + 1)) by (nonlinear_arith);
    assert(len * (i + 1) <= len * 4) by (nonlinear_arith)
        requires
            i < 4,
    ;
    vstd::arithmetic::div_mod::lemma_div_is_ordered((len * i) as int, (len * (i + 1)) as int, 4);
    vstd::arithmetic::div_mod::lemma_div_is_ordered((len * (i + 1)) as int, (len * 4) as int, 4);
    assert(len * 4 / 4 == len) by (nonlinear_arith);
}

/// Computes the checksum of bytes `[start, end)` of the content.
fn checksum_range(content: &[u8], start: usize, end: usize) -> (c: u32)
    requires
        start <= end <= content@.len(),
    ensures
        c == segment_checksum(content@.subrange(start as int, end as int)),
{
    let mut c: u32 = 0;
    let mut k = start;
    proof {
        assert(content@.subrange(start as int, start as int) =~= Seq::<u8>::empty());
    }
    while k < end
        invariant
            start <= k <= end <= content@.len(),
            c == segment_checksum(content@.subrange(start as int, k as int)),
        decreases end - k,
    {
        proof {
            assert(content@.subrange(start as int, k + 1).drop_last() =~= content@.subrange(start as int, k as int));
        }
        c = c.wrapping_add(content[k] as u32);
        c = c.wrapping_mul(31);
        k = k + 1;
    }
    c
}

/// Computes the four segment checksums of the content.
pub fn compute_verification_checksums(content: &[u8]) -> (c: Vec<u32>)
    requires
        content@.len() * CHECKSUM_COUNT <= usize::MAX,
    ensures
        c@ == verification_checksums(content@),
{
    let n = content.len();
    let mut c: Vec<u32> = Vec::new();
    let mut i: usize = 0;
    while i < CHECKSUM_COUNT
        invariant
            n == content@.len(),
            n * CHECKSUM_COUNT <= usize::MAX,
            i <= CHECKSUM_COUNT,
            c@.len() == i,
            forall|j: int| 0 <= j < i ==> #[trigger] c@[j] == segment_checksum(segment(content@, j)),
        decreases CHECKSUM_COUNT - i,
    {
        proof {
            lemma_segment_bounds(n as nat, i as nat);
            assert(n * i <= n * 4) by (nonlinear_arith)
                requires
                    i < 4,
            ;
            assert(n * (i + 1) <= n * 4) by (nonlinear_arith)
                requires
                    i < 4,
            ;
        }
        let start = (n * i) / CHECKSUM_COUNT;
        let end = (n * (i + 1)) / CHECKSUM_COUNT;
        let v = checksum_range(content, start, end);
        c.push(v);
        i = i + 1;
    }
    proof {
        assert(c@ =~= verification_checksums(content@));
    }
    c
}

/// How many times each byte value occurs in `s`.
pub open spec fn byte_frequency(s: Seq<u8>) -> Seq<nat>
    decreases s.len(),
{
    if s.len() == 0 {
        Seq::new(256, |b: int| 0nat)
    } else {
        let f = byte_frequency(s.drop_last());
        f.update(s.last() as int, f[s.last() as int] + 1)
    }
}

/// The frequency table has one entry per byte value, none above the length.
pub proof fn lemma_frequency_facts(s: Seq<u8>)
    ensures
        byte_frequency(s).len() == 256,
        forall|b: int| 0 <= b < 256 ==> #[trigger] byte_frequency(s)[b] <= s.len(),
    decreases s.len(),
{
    if s.len() > 0 {
        lemma_frequency_facts(s.drop_last());
    }
}

/// The bytes the fingerprint hashes: each of the 256 counts as four little-endian bytes.
pub open spec fn frequency_bytes(f: Seq<nat>) -> Seq<u8> {
    Seq::new(256, |b: int| le_bytes(f[b], 4)).flatten()
}

/// The distribution fingerprint: the SHA-256 of the byte-frequency table.
pub open spec fn distribution_fingerprint(s: Seq<u8>) -> Seq<u8> {
    ring_sha256(frequency_bytes(byte_frequency(s)))
}

/// Computes the byte-distribution fingerprint of the content; each count must fit in 32
/// bits.
pub fn compute_distribution_fingerprint(content: &[u8]) -> (f: Vec<u8>)
    requires
        content@.len() <= u32::MAX,
    ensures
        f@ == distribution_fingerprint(content@),
{
    let mut freq: Vec<u32> = Vec::new();
    let mut b: usize = 0;
    while b < 256
        invariant
            b <= 256,
            freq@.len() == b,
            forall|t: int| 0 <= t < b ==> freq@[t] == 0,
        decreases 256 - b,
    {
        freq.push(0);
        b = b + 1;
    }
    proof {
        assert(content@.subrange(0, 0) =~= Seq::<u8>::empty());
        assert(freq@.map_values(|x: u32| x as nat) =~= byte_frequency(Seq::<u8>::empty()));
    }
    let n = content.len();
    let mut i: usize = 0;
    while i < n
        invariant
            n == content@.len(),
            n <= u32::MAX,
            i <= n,
            freq@.len() == 256,
            freq@.map_values(|x: u32| x as nat) == byte_frequency(content@.subrange(0, i as int)),
        decreases n - i,
    {
        proof {
            let pre = content@.subrange(0, i as int);
            lemma_frequency_facts(pre);
            assert(content@.subrange(0, i + 1).drop_last() =~= pre);
            assert(freq@.map_values(|x: u32| x as nat)[content@[i as int] as int] == freq@[content@[i as int] as int] as nat);
        }
        let byte = content[i] as usize;
        let updated = freq[byte] + 1;
        freq.set(byte, updated);
        i = i + 1;
        proof {
            assert(freq@.map_values(|x: u32| x as nat) =~= byte_frequency(content@.subrange(0, i as int)));
        }
    }
    proof {
        assert(content@.subrange(0, n as int) =~= content@);
    }
    let ghost counts = freq@.map_values(|x: u32| x as nat);
    let mut input: Vec<u8> = Vec::new();
    let mut k: usize = 0;
    proof {
        assert(Seq::new(0, |t: int| le_bytes(counts[t], 4)) =~= Seq::<Seq<u8>>::empty());
    }
    while k < 256
        invariant
            k <= 256,
            freq@.len() == 256,
            counts == freq@.map_values(|x: u32| x as nat),
            input@ == Seq::new(k as nat, |t: int| le_bytes(counts[t], 4)).flatten(),
        decreases 256 - k,
    {
        let le = le_bytes_of(freq[k] as u64, 4);
        proof {
            let prev = Seq::new(k as nat, |t: int| le_bytes(counts[t], 4));
            assert(Seq::new((k + 1) as nat, |t: int| le_bytes(counts[t], 4)) =~= prev.push(le_bytes(counts[k as int], 4)));
            prev.lemma_flatten_push(le_bytes(counts[k as int], 4));
        }
        input = concat_bytes(input.as_slice(), le.as_slice());
        k = k + 1;
    }
    proof {
        assert(Seq::new(256, |t: int| le_bytes(counts[t], 4)) =~= Seq::new(256, |t: int| le_bytes(byte_frequency(content@)[t], 4)));
        assert(input@.len() <= sha256_max_input()) by {
            lemma_frequency_bytes_len(counts);
        }
    }
    ring_digest(RingAlgorithm::Sha256, input.as_slice())
}

/// The frequency bytes are 1024 bytes long.
proof fn lemma_frequency_bytes_len(f: Seq<nat>)
    ensures
        Seq::new(256, |b: int| le_bytes(f[b], 4)).flatten().len() == 1024,
{
    let s = Seq::new(256, |b: int| le_bytes(f[b], 4));
    assert forall|b: int| 0 <= b < 256 implies (#[trigger] s[b]).len() == 4 by {
        lemma_le_bytes_len(f[b], 4);
    }
    lemma_flatten_uniform_len(s, 256);
}

/// `le_bytes` gives exactly `k` bytes.
pub proof fn lemma_le_bytes_len(n: nat, k: nat)
    ensures
        le_bytes(n, k).len() == k,
    decreases k,
{
    if k > 0 {
        lemma_le_bytes_len(n / 256, (k - 1) as nat);
    }
}

/// Flattening `m` sequences of four bytes each gives `4 * m` bytes.
proof fn lemma_flatten_uniform_len(s: Seq<Seq<u8>>, m: nat)
    requires
        s.len() == m,
        forall|b: int| 0 <= b < s.len() ==> (#[trigger] s[b]).len() == 4,
    ensures
        s.flatten().len() == 4 * m,
    decreases m,
{
    if m > 0 {
        let t = s.drop_first();
        assert forall|b: int| 0 <= b < t.len() implies (#[trigger] t[b]).len() == 4 by {
            assert(t[b] == s[b + 1]);
        }
        lemma_flatten_uniform_len(t, (m - 1) as nat);
    }
}

/// The completeness proof of `s`.
pub open spec fn completeness_proof(s: Seq<u8>) -> (Seq<u64>, Seq<u8>, Seq<u32>, Seq<u8>) {
    (poly_coefficients(s), parity_of(s), verification_checksums(s), distribution_fingerprint(s))
}

/// Content the completeness proof can be computed for: counts fit in 32 bits and segment
/// bounds fit in a machine word.
pub open spec fn provable_content(s: Seq<u8>) -> bool {
    &&& s.len() <= u32::MAX
    &&& s.len() * CHECKSUM_COUNT <= usize::MAX
}

/// Generates the mathematical completeness proof of the content.
pub fn generate_completeness_proof(content: &[u8]) -> (p: CompletenessProof)
    requires
        provable_content(content@),
    ensures
        (p.polynomial_coefficients@, p.parity_data@, p.verification_checksums@, p.distribution_fingerprint@)
            == completeness_proof(content@),
{
    let polynomial_coefficients = compute_polynomial_coefficients(content);
    let parity_data = generate_parity(content);
    let verification_checksums = compute_verification_checksums(content);
    let distribution_fingerprint = compute_distribution_fingerprint(content);
    CompletenessProof { polynomial_coefficients, parity_data, verification_checksums, distribution_fingerprint }
}

/// Which parts of a completeness proof the content reproduces.
#[derive(Debug, Clone, Copy, PartialEq, Eq)]
pub struct CompletenessChecks {
    pub polynomial_verification: bool,
    pub parity_verification: bool,
    pub checksum_verification: bool,
    pub distribution_verification: bool,
}

impl CompletenessChecks {
    /// Number of checks that passed.
    pub fn passed(&self) -> (n: u8)
        ensures
            n == (if self.polynomial_verification { 1int } else { 0 }) + (if self.parity_verification {
                1int
            } else {
                0
            }) + (if self.checksum_verification { 1int } else { 0 }) + (if self.distribution_verification {
                1int
            } else {
                0
            }),
    {
        let mut n: u8 = 0;
        if self.polynomial_verification {
            n = n + 1;
        }
        if self.parity_verification {
            n = n + 1;
        }
        if self.checksum_verification {
            n = n + 1;
        }
        if self.distribution_verification {
            n = n + 1;
        }
        n
    }
}

/// Whether two byte buffers hold the same bytes.
fn same_bytes(a: &Vec<u8>, b: &Vec<u8>) -> (r: bool)
    ensures
        r == (a@ == b@),
{
    if a.len() != b.len() {
        return false;
    }
    let mut i: usize = 0;
    while i < a.len()
        invariant
            a@.len() == b@.len(),
            i <= a@.len(),
            forall|k: int| 0 <= k < i ==> a@[k] == b@[k],
        decreases a@.len() - i,
    {
        if a[i] != b[i] {
            return false;
        }
        i = i + 1;
    }
    proof {
        assert(a@ =~= b@);
    }
    true
}

/// Whether two lists of 64-bit values are equal.
fn same_u64s(a: &Vec<u64>, b: &Vec<u64>) -> (r: bool)
    ensures
        r == (a@ == b@),
{
    if a.len() != b.len() {
        return false;
    }
    let mut i: usize = 0;
    while i < a.len()
        invariant
            a@.len() == b@.len(),
            i <= a@.len(),
            forall|k: int| 0 <= k < i ==> a@[k] == b@[k],
        decreases a@.len() - i,
    {
        if a[i] != b[i] {
            return false;
        }
        i = i + 1;
    }
    proof {
        assert(a@ =~= b@);
    }
    true
}

/// Whether two lists of 32-bit values are equal.
fn same_u32s(a: &Vec<u32>, b: &Vec<u32>) -> (r: bool)
    ensures
        r == (a@ == b@),
{
    if a.len() != b.len() {
        return false;
    }
    let mut i: usize = 0;
    while i < a.len()
        invariant
            a@.len() == b@.len(),
            i <= a@.len(),
            forall|k: int| 0 <= k < i ==> a@[k] == b@[k],
        decreases a@.len() - i,
    {
        if a[i] != b[i] {
            return false;
        }
        i = i + 1;
    }
    proof {
        assert(a@ =~= b@);
    }
    true
}

/// Recomputes each part of the completeness proof from the content and compares it with
/// the proof given.
pub fn verify_mathematical_proof(content: &[u8], proof: &CompletenessProof) -> (c: CompletenessChecks)
    requires
        provable_content(content@),
    ensures
        c.polynomial_verification == (poly_coefficients(content@) == proof.polynomial_coefficients@),
        c.parity_verification == (parity_of(content@) == proof.parity_data@),
        c.checksum_verification == (verification_checksums(content@) == proof.verification_checksums@),
        c.distribution_verification == (distribution_fingerprint(content@) == proof.distribution_fingerprint@),
{
    let coefficients = compute_polynomial_coefficients(content);
    let parity = generate_parity(content);
    let checksums = compute_verification_checksums(content);
    let fingerprint = compute_distribution_fingerprint(content);
    CompletenessChecks {
        polynomial_verification: same_u64s(&coefficients, &proof.polynomial_coefficients),
        parity_verification: same_bytes(&parity, &proof.parity_data),
        checksum_verification: same_u32s(&checksums, &proof.verification_checksums),
        distribution_verification: same_bytes(&fingerprint, &proof.distribution_fingerprint),
    }
}

/// A completeness proof generated from some content passes every check against that
/// content.
pub proof fn lemma_generated_proof_verifies(s: Seq<u8>, p: (Seq<u64>, Seq<u8>, Seq<u32>, Seq<u8>))
    requires
        p == completeness_proof(s),
    ensures
        poly_coefficients(s) == p.0,
        parity_of(s) == p.1,
        verification_checksums(s) == p.2,
        distribution_fingerprint(s) == p.3,
{
}

/// The XOR parity is blind to the order of bytes within one residue class but catches any
/// single changed byte: changing the byte at one position changes the parity byte of its
/// class and no other.
pub proof fn lemma_parity_detects_single_change(s: Seq<u8>, i: int, v: u8)
    requires
        0 <= i < s.len(),
        v != s[i],
    ensures
        parity_of(s.update(i, v))[i % 16] != parity_of(s)[i % 16],
        forall|k: int| 0 <= k < 16 && k != i % 16 ==> parity_of(s.update(i, v))[k] == parity_of(s)[k],
    decreases s.len(),
{
    lemma_parity_len(s);
    lemma_parity_len(s.update(i, v));
    let t = s.update(i, v);
    if i == s.len() - 1 {
        assert(t.drop_last() =~= s.drop_last());
        let p = parity_of(s.drop_last());
        lemma_parity_len(s.drop_last());
        let k = i % 16;
        let a = p[k];
        let x = s.last();
        assert((a ^ x) != (a ^ v)) by (bit_vector)
            requires
                x != v,
        ;
    } else {
        assert(t.drop_last() =~= s.drop_last().update(i, v));
        lemma_parity_detects_single_change(s.drop_last(), i, v);
        lemma_parity_len(s.drop_last());
        lemma_parity_len(s.drop_last().update(i, v));
        let k = (s.len() - 1) % 16;
        let p1 = parity_of(s.drop_last());
        let p2 = parity_of(s.drop_last().update(i, v));
        let x = s.last();
        if k == i % 16 {
            let a = p1[k];
            let b = p2[k];
            assert((a ^ x) != (b ^ x)) by (bit_vector)
                requires
                    a != b,
            ;
        }
    }
}

/// The Merkle leaves of `s`: the SHA-256 of each 4 KiB piece.
pub open spec fn merkle_leaves(s: Seq<u8>) -> Seq<Seq<u8>> {
    Seq::new(
        piece_count(s.len(), MERKLE_PIECE_SIZE as nat),
        |k: int| ring_sha256(piece_of(s, MERKLE_PIECE_SIZE as nat, k as nat)),
    )
}

/// Node `k` of the level above `level`: the hash of a pair of nodes, the last node paired
/// with itself when the level has an odd length.
pub open spec fn parent_node(level: Seq<Seq<u8>>, k: int) -> Seq<u8> {
    if 2 * k + 1 < level.len() {
        ring_sha256(level[2 * k] + level[2 * k + 1])
    } else {
        ring_sha256(level[2 * k] + level[2 * k])
    }
}

/// The level above `level`.
pub open spec fn parent_level(level: Seq<Seq<u8>>) -> Seq<Seq<u8>> {
    Seq::new(((level.len() + 1) / 2) as nat, |k: int| parent_node(level, k))
}

/// The top level of the tree built from `level`: a single node, or none for no leaves.
pub open spec fn merkle_top(level: Seq<Seq<u8>>) -> Seq<Seq<u8>>
    decreases level.len(),
{
    if level.len() <= 1 {
        level
    } else {
        merkle_top(parent_level(level))
    }
}

/// The bytes of the text `empty`, hashed as the root of empty content.
pub open spec fn empty_marker() -> Seq<u8> {
    seq![0x65u8, 0x6d, 0x70, 0x74, 0x79]
}

/// The Merkle root of `s`: the top node of the tree over its 4 KiB pieces, or the hash of
/// the text `empty` for empty content.
pub open spec fn merkle_root(s: Seq<u8>) -> Seq<u8> {
    let top = merkle_top(merkle_leaves(s));
    if top.len() == 0 {
        ring_sha256(empty_marker())
    } else {
        top[0]
    }
}

/// The top of a tree has at most one node.
proof fn lemma_merkle_top_len(level: Seq<Seq<u8>>)
    ensures
        merkle_top(level).len() <= 1,
        merkle_top(level).len() == 0 <==> level.len() == 0,
    decreases level.len(),
{
    if level.len() > 1 {
        lemma_merkle_top_len(parent_level(level));
    }
}

/// The byte sequences held by a list of buffers.
pub open spec fn nodes_view(v: Seq<Vec<u8>>) -> Seq<Seq<u8>> {
    v.map_values(|b: Vec<u8>| b@)
}

/// Computes the Merkle root of the content over 4 KiB pieces.
pub fn compute_merkle_root(content: &[u8]) -> (r: Vec<u8>)
    ensures
        r@ == merkle_root(content@),
{
    let n = content.len();
    let count: usize = if n % MERKLE_PIECE_SIZE == 0 {
        n / MERKLE_PIECE_SIZE
    } else {
        n / MERKLE_PIECE_SIZE + 1
    };
    let ghost leaves = merkle_leaves(content@);
    let mut level: Vec<Vec<u8>> = Vec::new();
    let mut k: usize = 0;
    while k < count
        invariant
            n == content@.len(),
            count == piece_count(n as nat, MERKLE_PIECE_SIZE as nat),
            leaves == merkle_leaves(content@),
            k <= count,
            level@.len() == k,
            forall|j: int| 0 <= j < k ==> (#[trigger] level@[j])@ == leaves[j],
            forall|j: int| 0 <= j < k ==> (#[trigger] level@[j])@.len() == 32,
        decreases count - k,
    {
        proof {
            crate::storage::file_chunker::lemma_piece_start(n as nat, MERKLE_PIECE_SIZE as nat, k as nat);
        }
        let start = k * MERKLE_PIECE_SIZE;
        let end = if n - start > MERKLE_PIECE_SIZE {
            start + MERKLE_PIECE_SIZE
        } else {
            n
        };
        let piece = copy_range(content, start, end);
        proof {
            assert(piece@ == piece_of(content@, MERKLE_PIECE_SIZE as nat, k as nat));
        }
        let h = ring_digest(RingAlgorithm::Sha256, piece.as_slice());
        level.push(h);
        k = k + 1;
    }
    proof {
        assert(nodes_view(level@) =~= leaves);
    }
    while level.len() > 1
        invariant
            merkle_top(nodes_view(level@)) == merkle_top(leaves),
            forall|j: int| 0 <= j < level@.len() ==> (#[trigger] level@[j])@.len() <= 64,
        decreases level@.len(),
    {
        let ghost cur = nodes_view(level@);
        let m = level.len();
        let half = m / 2 + m % 2;
        let mut next: Vec<Vec<u8>> = Vec::new();
        let mut p: usize = 0;
        while p < half
            invariant
                m == level@.len(),
                m > 1,
                half == (m + 1) / 2,
                cur == nodes_view(level@),
                p <= half,
                next@.len() == p,
                forall|j: int| 0 <= j < p ==> (#[trigger] next@[j])@ == parent_node(cur, j),
                forall|j: int| 0 <= j < p ==> (#[trigger] next@[j])@.len() == 32,
                forall|j: int| 0 <= j < level@.len() ==> (#[trigger] level@[j])@.len() <= 64,
            decreases half - p,
        {
            let left = &level[2 * p];
            let pair = if 2 * p + 1 < m {
                concat_bytes(left.as_slice(), level[2 * p + 1].as_slice())
            } else {
                concat_bytes(left.as_slice(), left.as_slice())
            };
            proof {
                assert(cur[2 * p as int] == left@);
                if 2 * p + 1 < m {
                    assert(cur[2 * p + 1] == level@[2 * p + 1]@);
                }
            }
            let h = ring_digest(RingAlgorithm::Sha256, pair.as_slice());
            next.push(h);
            p = p + 1;
        }
        proof {
            assert(nodes_view(next@) =~= parent_level(cur));
        }
        level = next;
    }
    proof {
        lemma_merkle_top_len(leaves);
        lemma_merkle_top_len(nodes_view(level@));
    }
    if level.len() == 0 {
        let empty: Vec<u8> = vec![0x65u8, 0x6d, 0x70, 0x74, 0x79];
        proof {
            assert(empty@ =~= empty_marker());
        }
        ring_digest(RingAlgorithm::Sha256, empty.as_slice())
    } else {
        proof {
            assert(merkle_top(nodes_view(level@)) == nodes_view(level@));
        }
        level.remove(0)
    }
}

/// The digests of content, as `ring` computes them.
pub fn compute_sha256(content: &[u8]) -> (h: Vec<u8>)
    requires
        content@.len() <= sha256_max_input(),
    ensures
        h@ == ring_sha256(content@),
        h@.len() == 32,
{
    ring_digest(RingAlgorithm::Sha256, content)
}

/// The SHA-512 digest of content, as `ring` computes it.
pub fn compute_sha512(content: &[u8]) -> (h: Vec<u8>)
    requires
        content@.len() <= sha256_max_input(),
    ensures
        h@ == ring_sha512(content@),
        h@.len() == 64,
{
    ring_digest(RingAlgorithm::Sha512, content)
}

/// Which digests of the content match those an integrity proof recorded.
#[derive(Debug, Clone, Copy, PartialEq, Eq)]
pub struct HashChecks {
    pub sha256_match: bool,
    pub sha512_match: bool,
    pub merkle_verification: bool,
}

/// Recomputes the digests and the Merkle root of the content and compares them with those
/// recorded.
pub fn verify_hashes(content: &[u8], sha256: &Vec<u8>, sha512: &Vec<u8>, merkle: &Vec<u8>) -> (c: HashChecks)
    requires
        content@.len() <= sha256_max_input(),
    ensures
        c.sha256_match == (ring_sha256(content@) == sha256@),
        c.sha512_match == (ring_sha512(content@) == sha512@),
        c.merkle_verification == (merkle_root(content@) == merkle@),
{
    let h256 = compute_sha256(content);
    let h512 = compute_sha512(content);
    let root = compute_merkle_root(content);
    HashChecks {
        sha256_match: same_bytes(&h256, sha256),
        sha512_match: same_bytes(&h512, sha512),
        merkle_verification: same_bytes(&root, merkle),
    }
}

/// Number of 4 KiB pieces of content of `len` bytes.
pub fn merkle_piece_count(len: usize) -> (n: usize)
    ensures
        n == piece_count(len as nat, MERKLE_PIECE_SIZE as nat),
{
    if len % MERKLE_PIECE_SIZE == 0 {
        len / MERKLE_PIECE_SIZE
    } else {
        len / MERKLE_PIECE_SIZE + 1
    }
}

/// Whether a proof stamped `timestamp` is still fresh at `now` (at most `max_age` seconds
/// old) and not dated more than five minutes ahead of `now`.
pub fn temporal_checks(now: u64, timestamp: u64, max_age: u64) -> (r: (bool, bool))
    ensures
        r.0 == ((if now >= timestamp { now - timestamp } else { 0 }) <= max_age),
        r.1 == (timestamp <= now + 300),
{
    let age = now.saturating_sub(timestamp);
    let fresh = age <= max_age;
    let not_future = if now > u64::MAX - 300 {
        true
    } else {
        timestamp <= now + 300
    };
    (fresh, not_future)
}


/// Metadata recorded with an integrity proof: the number of 4 KiB pieces and what kind of
/// content it is. The content's entropy, a floating-point measure, is computed beside it by
/// the application.
#[derive(Debug, Clone, PartialEq, Eq)]
pub struct IntegrityMetadata {
    pub chunk_count: usize,
    pub content_classification: String,
}

/// Cryptographic and mathematical evidence of the integrity of some encrypted content.
#[derive(Debug, Clone, PartialEq, Eq)]
pub struct IntegrityProof {
    /// Unique proof identifier (the 128-bit value of a random UUID)
    pub proof_id: u128,
    /// SHA-256 hash of encrypted content
    pub content_hash_sha256: Vec<u8>,
    /// SHA-512 hash of encrypted content
    pub content_hash_sha512: Vec<u8>,
    /// Merkle tree root for chunk verification
    pub merkle_root: Vec<u8>,
    /// Mathematical proof of completeness
    pub completeness_proof: CompletenessProof,
    /// Timestamp when proof was generated (seconds since the Unix epoch)
    pub timestamp: u64,
    /// Content size in bytes
    pub content_size: u64,
    /// Additional metadata for verification
    pub metadata: IntegrityMetadata,
}

/// Content an integrity proof can be generated for and checked against.
pub open spec fn proof_content(s: Seq<u8>) -> bool {
    &&& s.len() <= sha256_max_input()
    &&& provable_content(s)
}

/// The proof describes content `s` as generated at `now`: every digest, the Merkle root and
/// the completeness proof are those of `s`.
pub open spec fn proof_of(p: IntegrityProof, s: Seq<u8>, now: u64) -> bool {
    &&& p.content_hash_sha256@ == ring_sha256(s)
    &&& p.content_hash_sha512@ == ring_sha512(s)
    &&& p.merkle_root@ == merkle_root(s)
    &&& (p.completeness_proof.polynomial_coefficients@, p.completeness_proof.parity_data@,
        p.completeness_proof.verification_checksums@, p.completeness_proof.distribution_fingerprint@)
        == completeness_proof(s)
    &&& p.timestamp == now
    &&& p.content_size == s.len()
    &&& p.metadata.chunk_count == piece_count(s.len(), MERKLE_PIECE_SIZE as nat)
    &&& p.metadata.content_classification@ == "encrypted_data"@
}

/// Generates the integrity proof of the content at time `now` (seconds since the Unix
/// epoch), under a fresh random identifier.
pub fn generate_proof(content: &[u8], now: u64) -> (p: IntegrityProof)
    requires
        proof_content(content@),
    ensures
        proof_of(p, content@, now),
{
    let proof_id = new_chunk_id();
    let content_hash_sha256 = compute_sha256(content);
    let content_hash_sha512 = compute_sha512(content);
    let merkle_root = compute_merkle_root(content);
    let completeness_proof = generate_completeness_proof(content);
    let metadata = IntegrityMetadata {
        chunk_count: merkle_piece_count(content.len()),
        content_classification: "encrypted_data".to_owned(),
    };
    IntegrityProof {
        proof_id,
        content_hash_sha256,
        content_hash_sha512,
        merkle_root,
        completeness_proof,
        timestamp: now,
        content_size: content.len() as u64,
        metadata,
    }
}

/// Which checks the verifier runs, how old a proof may be (seconds), and the confidence
/// required, in hundredths.
#[derive(Debug, Clone, Copy, PartialEq, Eq)]
pub struct IntegrityConfig {
    pub hash_verification: bool,
    pub proof_verification: bool,
    pub temporal_verification: bool,
    pub max_proof_age: u64,
    pub confidence_threshold_hundredths: u32,
}

impl IntegrityConfig {
    /// Every check enabled, proofs valid for an hour, and 95% confidence required.
    pub fn standard() -> (c: Self)
        ensures
            c.hash_verification && c.proof_verification && c.temporal_verification,
            c.max_proof_age == 3600,
            c.confidence_threshold_hundredths == 95,
    {
        IntegrityConfig {
            hash_verification: true,
            proof_verification: true,
            temporal_verification: true,
            max_proof_age: 3600,
            confidence_threshold_hundredths: 95,
        }
    }
}

/// The outcome of checking content against an integrity proof: the result of each enabled
/// check (`None` for a check that is switched off), how many checks ran, and the confidence
/// as the sum of their confidences in hundredths; the overall confidence is that sum over
/// `100 * checks_run` (zero when none ran).
#[derive(Debug, Clone, Copy, PartialEq, Eq)]
pub struct IntegrityVerdict {
    pub is_valid: bool,
    pub hashes: Option<HashChecks>,
    pub completeness: Option<CompletenessChecks>,
    pub temporal: Option<(bool, bool)>,
    pub checks_run: u32,
    pub confidence_points: u32,
}

/// Confidence in hundredths from the digest checks: all three match 100, two 70, one 30,
/// none 0.
pub open spec fn hash_points(h: HashChecks) -> nat {
    let n = (if h.sha256_match { 1nat } else { 0 }) + (if h.sha512_match { 1nat } else { 0 }) + (if h.merkle_verification {
        1nat
    } else {
        0
    });
    if n == 3 {
        100
    } else if n == 2 {
        70
    } else if n == 1 {
        30
    } else {
        0
    }
}

/// Confidence in hundredths from the completeness checks: 25 per part reproduced.
pub open spec fn completeness_points(c: CompletenessChecks) -> nat {
    25 * ((if c.polynomial_verification { 1nat } else { 0 }) + (if c.parity_verification { 1nat } else { 0 }) + (
    if c.checksum_verification {
        1nat
    } else {
        0
    }) + (if c.distribution_verification { 1nat } else { 0 }))
}

/// Confidence in hundredths from the time checks: both 100, one 50, none 0.
pub open spec fn temporal_points(t: (bool, bool)) -> nat {
    if t.0 && t.1 {
        100
    } else if t.0 || t.1 {
        50
    } else {
        0
    }
}

/// The digest checks all passed.
pub open spec fn hashes_pass(h: HashChecks) -> bool {
    h.sha256_match && h.sha512_match && h.merkle_verification
}

/// The completeness checks all passed.
pub open spec fn completeness_passes(c: CompletenessChecks) -> bool {
    c.polynomial_verification && c.parity_verification && c.checksum_verification && c.distribution_verification
}

/// The digest checks of content against a proof.
pub open spec fn hash_checks_of(s: Seq<u8>, p: IntegrityProof) -> HashChecks {
    HashChecks {
        sha256_match: ring_sha256(s) == p.content_hash_sha256@,
        sha512_match: ring_sha512(s) == p.content_hash_sha512@,
        merkle_verification: merkle_root(s) == p.merkle_root@,
    }
}

/// The completeness checks of content against a proof.
pub open spec fn completeness_checks_of(s: Seq<u8>, p: IntegrityProof) -> CompletenessChecks {
    CompletenessChecks {
        polynomial_verification: poly_coefficients(s) == p.completeness_proof.polynomial_coefficients@,
        parity_verification: parity_of(s) == p.completeness_proof.parity_data@,
        checksum_verification: verification_checksums(s) == p.completeness_proof.verification_checksums@,
        distribution_verification: distribution_fingerprint(s) == p.completeness_proof.distribution_fingerprint@,
    }
}

/// The time checks of a proof at `now`: at most `max_age` seconds old, and not stamped more
/// than five minutes ahead.
pub open spec fn temporal_checks_of(p: IntegrityProof, now: u64, max_age: u64) -> (bool, bool) {
    ((if now >= p.timestamp { now - p.timestamp } else { 0 }) <= max_age, p.timestamp <= now + 300)
}

/// The verdict on content `s` against proof `p` at `now` under `config`.
pub open spec fn verdict_of(s: Seq<u8>, p: IntegrityProof, now: u64, config: IntegrityConfig) -> IntegrityVerdict {
    let hashes = if config.hash_verification { Some(hash_checks_of(s, p)) } else { None };
    let completeness = if config.proof_verification { Some(completeness_checks_of(s, p)) } else { None };
    let temporal = if config.temporal_verification {
        Some(temporal_checks_of(p, now, config.max_proof_age))
    } else {
        None
    };
    let runs = (if config.hash_verification { 1nat } else { 0 }) + (if config.proof_verification { 1nat } else { 0 })
        + (if config.temporal_verification { 1nat } else { 0 });
    let points = (if config.hash_verification { hash_points(hash_checks_of(s, p)) } else { 0 }) + (
    if config.proof_verification {
        completeness_points(completeness_checks_of(s, p))
    } else {
        0
    }) + (if config.temporal_verification {
        temporal_points(temporal_checks_of(p, now, config.max_proof_age))
    } else {
        0
    });
    let all_pass = (config.hash_verification ==> hashes_pass(hash_checks_of(s, p))) && (config.proof_verification
        ==> completeness_passes(completeness_checks_of(s, p))) && (config.temporal_verification ==> {
        let t = temporal_checks_of(p, now, config.max_proof_age);
        t.0 && t.1
    });
    let confident = if runs == 0 {
        config.confidence_threshold_hundredths == 0
    } else {
        points >= config.confidence_threshold_hundredths * runs
    };
    IntegrityVerdict {
        is_valid: all_pass && confident,
        hashes,
        completeness,
        temporal,
        checks_run: runs as u32,
        confidence_points: points as u32,
    }
}

/// Checks content against an integrity proof at time `now` (seconds since the Unix epoch)
/// with the checks `config` enables: the digests and Merkle root are recomputed and
/// compared, the completeness proof is recomputed and compared, and the proof must be at
/// most `max_proof_age` seconds old and not stamped more than five minutes ahead. The
/// content is valid when every check that ran passed and the mean confidence of those
/// checks reaches the threshold.
pub fn verify_integrity(content: &[u8], proof: &IntegrityProof, now: u64, config: &IntegrityConfig) -> (v: IntegrityVerdict)
    requires
        proof_content(content@),
    ensures
        v == verdict_of(content@, *proof, now, *config),
{
    let mut runs: u32 = 0;
    let mut points: u32 = 0;
    let mut all_pass = true;
    let hashes = if config.hash_verification {
        let h = verify_hashes(content, &proof.content_hash_sha256, &proof.content_hash_sha512, &proof.merkle_root);
        let mut matched: u32 = 0;
        if h.sha256_match {
            matched = matched + 1;
        }
        if h.sha512_match {
            matched = matched + 1;
        }
        if h.merkle_verification {
            matched = matched + 1;
        }
        let part: u32 = if matched == 3 {
            100
        } else if matched == 2 {
            70
        } else if matched == 1 {
            30
        } else {
            0
        };
        runs = runs + 1;
        points = points + part;
        all_pass = all_pass && h.sha256_match && h.sha512_match && h.merkle_verification;
        Some(h)
    } else {
        None
    };
    let completeness = if config.proof_verification {
        let c = verify_mathematical_proof(content, &proof.completeness_proof);
        runs = runs + 1;
        points = points + 25 * (c.passed() as u32);
        all_pass = all_pass && c.polynomial_verification && c.parity_verification && c.checksum_verification
            && c.distribution_verification;
        Some(c)
    } else {
        None
    };
    let temporal = if config.temporal_verification {
        let t = temporal_checks(now, proof.timestamp, config.max_proof_age);
        let part: u32 = if t.0 && t.1 {
            100
        } else if t.0 || t.1 {
            50
        } else {
            0
        };
        runs = runs + 1;
        points = points + part;
        all_pass = all_pass && t.0 && t.1;
        Some(t)
    } else {
        None
    };
    let confident = if runs == 0 {
        config.confidence_threshold_hundredths == 0
    } else {
        (points as u64) >= (config.confidence_threshold_hundredths as u64) * (runs as u64)
    };
    let v = IntegrityVerdict {
        is_valid: all_pass && confident,
        hashes,
        completeness,
        temporal,
        checks_run: runs,
        confidence_points: points,
    };
    proof {
        assert(v == verdict_of(content@, *proof, now, *config));
    }
    v
}

/// A proof generated from some content at `generated` and checked against the same content
/// no later than the configured age allows passes every check that runs, with full
/// confidence, whenever some check runs and the threshold is at most 100%.
pub proof fn lemma_fresh_proof_verifies(
    s: Seq<u8>,
    p: IntegrityProof,
    generated: u64,
    now: u64,
    config: IntegrityConfig,
)
    requires
        proof_of(p, s, generated),
        generated <= now,
        now - generated <= config.max_proof_age,
        config.hash_verification || config.proof_verification || config.temporal_verification,
        config.confidence_threshold_hundredths <= 100,
    ensures
        verdict_of(s, p, now, config).is_valid,
        verdict_of(s, p, now, config).confidence_points == 100 * verdict_of(s, p, now, config).checks_run,
{
    let runs = (if config.hash_verification { 1nat } else { 0 }) + (if config.proof_verification { 1nat } else { 0 })
        + (if config.temporal_verification { 1nat } else { 0 });
    assert(config.confidence_threshold_hundredths * runs <= 100 * runs) by (nonlinear_arith)
        requires
            config.confidence_threshold_hundredths <= 100,
    ;
}

} // verus!
