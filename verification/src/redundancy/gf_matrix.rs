//! Linear algebra over GF(2^8): sums of products, and the invariant that Gauss-Jordan
//! elimination on `[A | I]` keeps, from which the computed inverse is a left inverse.

use vstd::prelude::*;
use crate::redundancy::galois::{GaloisField, lemma_mul_commutative, lemma_mul_identity, lemma_mul_distributes, lemma_mul_associative, lemma_mul_inverse, lemma_div_then_mul};

verus! {

/// XOR of `f(0), ..., f(n-1)`: the sum in GF(2^8).
pub open spec fn xor_sum(f: spec_fn(int) -> u8, n: int) -> u8
    decreases n,
{
    if n <= 0 {
        0
    } else {
        xor_sum(f, n - 1) ^ f(n - 1)
    }
}

/// XOR facts the sums rely on.
pub proof fn lemma_xor_facts(a: u8, b: u8, c: u8, d: u8)
    by (bit_vector)
    ensures
        (a ^ b) ^ (c ^ d) == (a ^ c) ^ (b ^ d),
        a ^ 0u8 == a,
        0u8 ^ a == a,
        a ^ a == 0u8,
        ((a ^ b) ^ b) ^ c == a ^ c,
        ((a ^ b) ^ c) ^ d == ((a ^ d) ^ b) ^ c,
{
}

/// Sums of functions that agree on the range are equal.
pub proof fn lemma_xor_sum_ext(f: spec_fn(int) -> u8, g: spec_fn(int) -> u8, n: int)
    requires
        forall|k: int| 0 <= k < n ==> #[trigger] f(k) == g(k),
    ensures
        xor_sum(f, n) == xor_sum(g, n),
    decreases n,
{
    if n > 0 {
        lemma_xor_sum_ext(f, g, n - 1);
    }
}

/// The sum of pointwise sums is the sum of the sums.
pub proof fn lemma_xor_sum_add(f: spec_fn(int) -> u8, g: spec_fn(int) -> u8, n: int)
    ensures
        xor_sum(|k: int| f(k) ^ g(k), n) == xor_sum(f, n) ^ xor_sum(g, n),
    decreases n,
{
    lemma_xor_facts(0, 0, 0, 0);
    if n > 0 {
        lemma_xor_sum_add(f, g, n - 1);
        lemma_xor_facts(xor_sum(f, n - 1), xor_sum(g, n - 1), f(n - 1), g(n - 1));
    }
}

/// Multiplying a sum multiplies each term.
pub proof fn lemma_xor_sum_scale(gf: &GaloisField, a: u8, f: spec_fn(int) -> u8, n: int)
    requires
        gf.wf(),
    ensures
        gf.spec_mul(a, xor_sum(f, n)) == xor_sum(|k: int| gf.spec_mul(a, f(k)), n),
    decreases n,
{
    lemma_mul_identity(gf, a);
    if n > 0 {
        lemma_xor_sum_scale(gf, a, f, n - 1);
        lemma_mul_distributes(gf, a, xor_sum(f, n - 1), f(n - 1));
    }
}

/// A sum with one nonzero term is that term.
pub proof fn lemma_xor_sum_single(f: spec_fn(int) -> u8, r: int, n: int)
    requires
        0 <= r < n,
        forall|k: int| 0 <= k < n && k != r ==> #[trigger] f(k) == 0,
    ensures
        xor_sum(f, n) == f(r),
    decreases n,
{
    lemma_xor_facts(f(r), 0, 0, 0);
    if n - 1 > r {
        lemma_xor_sum_single(f, r, n - 1);
    } else {
        lemma_xor_sum_zero(f, n - 1);
        lemma_xor_facts(0, f(r), 0, 0);
    }
}

/// A sum of zeros is zero.
pub proof fn lemma_xor_sum_zero(f: spec_fn(int) -> u8, n: int)
    requires
        forall|k: int| 0 <= k < n ==> #[trigger] f(k) == 0,
    ensures
        xor_sum(f, n) == 0,
    decreases n,
{
    lemma_xor_facts(0, 0, 0, 0);
    if n > 0 {
        lemma_xor_sum_zero(f, n - 1);
    }
}

/// Double sums can be taken in either order.
pub proof fn lemma_xor_sum_exchange(f: spec_fn(int, int) -> u8, m: int, n: int)
    ensures
        xor_sum(|c: int| xor_sum(|k: int| f(c, k), n), m) == xor_sum(|k: int| xor_sum(|c: int| f(c, k), m), n),
    decreases m,
{
    if m <= 0 {
        lemma_xor_sum_zero(|k: int| xor_sum(|c: int| f(c, k), m), n);
    } else {
        lemma_xor_sum_exchange(f, m - 1, n);
        let prev = |k: int| xor_sum(|c: int| f(c, k), m - 1);
        let last = |k: int| f(m - 1, k);
        lemma_xor_sum_add(prev, last, n);
        lemma_xor_sum_ext(
            |k: int| xor_sum(|c: int| f(c, k), m),
            |k: int| prev(k) ^ last(k),
            n,
        );
    }
}

/// A nonzero byte divided by itself is one.
pub proof fn lemma_div_self(gf: &GaloisField, p: u8)
    requires
        gf.wf(),
        p != 0,
    ensures
        gf.spec_div(p, p) == 1,
{
    let x = gf.spec_div(p, p);
    let inv = gf.spec_div(1, p);
    lemma_div_then_mul(gf, p, p);
    lemma_mul_inverse(gf, p);
    lemma_mul_associative(gf, x, p, inv);
    lemma_mul_identity(gf, x);
}

/// A left inverse undoes its matrix: when `y[c]` is the sum over `k` of `m[c][k] * x[k]`
/// for every `c`, the sum over `c` of `inv[r][c] * y[c]` is `x[r]`.
pub proof fn lemma_left_inverse_recovers(
    gf: &GaloisField,
    inv: Seq<Seq<u8>>,
    m: Seq<Seq<u8>>,
    x: Seq<u8>,
    y: Seq<u8>,
    n: int,
    r: int,
)
    requires
        gf.wf(),
        is_left_inverse(*gf, inv, m, n),
        0 <= r < n,
        forall|c: int| 0 <= c < n ==> #[trigger] y[c] == xor_sum(|k: int| gf.spec_mul(m[c][k], x[k]), n),
    ensures
        xor_sum(|c: int| gf.spec_mul(inv[r][c], y[c]), n) == x[r],
{
    let f = |c: int, k: int| gf.spec_mul(inv[r][c], gf.spec_mul(m[c][k], x[k]));
    // Push each coefficient into its inner sum.
    assert forall|c: int| 0 <= c < n implies #[trigger] gf.spec_mul(inv[r][c], y[c]) == xor_sum(
        |k: int| f(c, k),
        n,
    ) by {
        lemma_xor_sum_scale(gf, inv[r][c], |k: int| gf.spec_mul(m[c][k], x[k]), n);
        lemma_xor_sum_ext(
            |k: int| gf.spec_mul(inv[r][c], (|k: int| gf.spec_mul(m[c][k], x[k]))(k)),
            |k: int| f(c, k),
            n,
        );
    }
    lemma_xor_sum_ext(|c: int| gf.spec_mul(inv[r][c], y[c]), |c: int| xor_sum(|k: int| f(c, k), n), n);
    // Swap the order of summation.
    lemma_xor_sum_exchange(f, n, n);
    // Each inner sum is x[k] times an entry of inv * m.
    let h = |k: int| xor_sum(|c: int| f(c, k), n);
    assert forall|k: int| 0 <= k < n implies #[trigger] h(k) == if k == r {
        x[r]
    } else {
        0u8
    } by {
        let g = |c: int| gf.spec_mul(inv[r][c], m[c][k]);
        assert forall|c: int| 0 <= c < n implies #[trigger] f(c, k) == gf.spec_mul(x[k], g(c)) by {
            lemma_mul_associative(gf, inv[r][c], m[c][k], x[k]);
            lemma_mul_commutative(gf, gf.spec_mul(inv[r][c], m[c][k]), x[k]);
        }
        lemma_xor_sum_ext(|c: int| f(c, k), |c: int| gf.spec_mul(x[k], g(c)), n);
        lemma_xor_sum_scale(gf, x[k], g, n);
        assert(mat_entry(*gf, inv, m, r, k, n) == if r == k { 1u8 } else { 0u8 });
        assert(xor_sum(g, n) == mat_entry(*gf, inv, m, r, k, n));
        lemma_mul_identity(gf, x[k]);
    }
    lemma_xor_sum_single(h, r, n);
}

/// Changing one term of a sum changes the sum by the old and the new term.
pub proof fn lemma_xor_sum_update(f: spec_fn(int) -> u8, g: spec_fn(int) -> u8, k: int, n: int)
    requires
        0 <= k < n,
        forall|t: int| 0 <= t < n && t != k ==> #[trigger] f(t) == g(t),
    ensures
        xor_sum(g, n) == (xor_sum(f, n) ^ f(k)) ^ g(k),
    decreases n,
{
    if k == n - 1 {
        lemma_xor_sum_ext(f, g, n - 1);
        lemma_xor_facts(xor_sum(f, n - 1), f(k), g(k), 0);
    } else {
        lemma_xor_sum_update(f, g, k, n - 1);
        lemma_xor_facts(xor_sum(f, n - 1), f(k), g(k), f(n - 1));
    }
}

/// Exchanging two terms of a sum leaves it unchanged.
pub proof fn lemma_xor_sum_swap(f: spec_fn(int) -> u8, g: spec_fn(int) -> u8, a: int, b: int, n: int)
    requires
        0 <= a < n,
        0 <= b < n,
        g(a) == f(b),
        g(b) == f(a),
        forall|t: int| 0 <= t < n && t != a && t != b ==> #[trigger] f(t) == g(t),
    ensures
        xor_sum(g, n) == xor_sum(f, n),
{
    if a == b {
        lemma_xor_sum_ext(f, g, n);
    } else {
        let h = |t: int| if t == a { f(b) } else { f(t) };
        assert forall|t: int| 0 <= t < n && t != a implies #[trigger] f(t) == h(t) by {}
        lemma_xor_sum_update(f, h, a, n);
        assert forall|t: int| 0 <= t < n && t != b implies #[trigger] h(t) == g(t) by {}
        lemma_xor_sum_update(h, g, b, n);
        assert(h(b) == f(b));
        lemma_swap_cancel(xor_sum(f, n), f(a), f(b));
    }
}

/// Exchanging rows `a` and `b` of `y` and columns `a` and `b` of a left inverse `z` keeps
/// it a left inverse.
pub proof fn lemma_left_inverse_swap(
    gf: &GaloisField,
    z: Seq<Seq<u8>>,
    y: Seq<Seq<u8>>,
    z2: Seq<Seq<u8>>,
    y2: Seq<Seq<u8>>,
    n: int,
    a: int,
    b: int,
)
    requires
        is_left_inverse(*gf, z, y, n),
        0 <= a < n,
        0 <= b < n,
        forall|r: int, k: int|
            0 <= r < n && 0 <= k < n ==> #[trigger] z2[r][k] == if k == a {
                z[r][b]
            } else if k == b {
                z[r][a]
            } else {
                z[r][k]
            },
        forall|k: int, c: int|
            0 <= k < n && 0 <= c < n ==> #[trigger] y2[k][c] == if k == a {
                y[b][c]
            } else if k == b {
                y[a][c]
            } else {
                y[k][c]
            },
    ensures
        is_left_inverse(*gf, z2, y2, n),
{
    assert forall|r: int, c: int| 0 <= r < n && 0 <= c < n implies #[trigger] mat_entry(*gf, z2, y2, r, c, n)
        == if r == c { 1u8 } else { 0u8 } by {
        let f = |k: int| gf.spec_mul(z[r][k], y[k][c]);
        let g = |k: int| gf.spec_mul(z2[r][k], y2[k][c]);
        assert forall|t: int| 0 <= t < n && t != a && t != b implies #[trigger] f(t) == g(t) by {}
        lemma_xor_sum_swap(f, g, a, b, n);
        assert(mat_entry(*gf, z, y, r, c, n) == if r == c { 1u8 } else { 0u8 });
    }
}

/// Dividing row `i` of `y` by a nonzero `p` and multiplying column `i` of a left inverse `z`
/// by `p` keeps it a left inverse.
pub proof fn lemma_left_inverse_scale(
    gf: &GaloisField,
    z: Seq<Seq<u8>>,
    y: Seq<Seq<u8>>,
    z2: Seq<Seq<u8>>,
    y2: Seq<Seq<u8>>,
    n: int,
    i: int,
    p: u8,
)
    requires
        gf.wf(),
        is_left_inverse(*gf, z, y, n),
        0 <= i < n,
        p != 0,
        forall|r: int, k: int|
            0 <= r < n && 0 <= k < n ==> #[trigger] z2[r][k] == if k == i {
                gf.spec_mul(z[r][i], p)
            } else {
                z[r][k]
            },
        forall|k: int, c: int|
            0 <= k < n && 0 <= c < n ==> #[trigger] y2[k][c] == if k == i {
                gf.spec_div(y[i][c], p)
            } else {
                y[k][c]
            },
    ensures
        is_left_inverse(*gf, z2, y2, n),
{
    assert forall|r: int, c: int| 0 <= r < n && 0 <= c < n implies #[trigger] mat_entry(*gf, z2, y2, r, c, n)
        == if r == c { 1u8 } else { 0u8 } by {
        let f = |k: int| gf.spec_mul(z[r][k], y[k][c]);
        let g = |k: int| gf.spec_mul(z2[r][k], y2[k][c]);
        assert forall|t: int| 0 <= t < n implies #[trigger] f(t) == g(t) by {
            if t == i {
                let q = gf.spec_div(y[i][c], p);
                lemma_div_then_mul(gf, y[i][c], p);
                lemma_mul_associative(gf, z[r][i], p, q);
                lemma_mul_commutative(gf, p, q);
            }
        }
        lemma_xor_sum_ext(f, g, n);
        assert(mat_entry(*gf, z, y, r, c, n) == if r == c { 1u8 } else { 0u8 });
    }
}

/// Adding `f` times row `i` of `y` to row `j`, and `f` times column `j` of a left inverse
/// `z` to its column `i`, keeps it a left inverse.
pub proof fn lemma_left_inverse_combine(
    gf: &GaloisField,
    z: Seq<Seq<u8>>,
    y: Seq<Seq<u8>>,
    z2: Seq<Seq<u8>>,
    y2: Seq<Seq<u8>>,
    n: int,
    i: int,
    j: int,
    f: u8,
)
    requires
        gf.wf(),
        is_left_inverse(*gf, z, y, n),
        0 <= i < n,
        0 <= j < n,
        i != j,
        forall|r: int, k: int|
            0 <= r < n && 0 <= k < n ==> #[trigger] z2[r][k] == if k == i {
                z[r][i] ^ gf.spec_mul(f, z[r][j])
            } else {
                z[r][k]
            },
        forall|k: int, c: int|
            0 <= k < n && 0 <= c < n ==> #[trigger] y2[k][c] == if k == j {
                y[j][c] ^ gf.spec_mul(f, y[i][c])
            } else {
                y[k][c]
            },
    ensures
        is_left_inverse(*gf, z2, y2, n),
{
    assert forall|r: int, c: int| 0 <= r < n && 0 <= c < n implies #[trigger] mat_entry(*gf, z2, y2, r, c, n)
        == if r == c { 1u8 } else { 0u8 } by {
        let e = |k: int| gf.spec_mul(z[r][k], y[k][c]);
        let h = |k: int| if k == i { gf.spec_mul(z2[r][i], y[i][c]) } else { e(k) };
        let g = |k: int| gf.spec_mul(z2[r][k], y2[k][c]);
        assert forall|t: int| 0 <= t < n && t != i implies #[trigger] e(t) == h(t) by {}
        lemma_xor_sum_update(e, h, i, n);
        assert forall|t: int| 0 <= t < n && t != j implies #[trigger] h(t) == g(t) by {}
        lemma_xor_sum_update(h, g, j, n);
        // The two added terms are equal, so they cancel.
        let extra = gf.spec_mul(gf.spec_mul(f, z[r][j]), y[i][c]);
        lemma_mul_distributes(gf, y[i][c], z[r][i], gf.spec_mul(f, z[r][j]));
        lemma_mul_distributes(gf, z[r][j], y[j][c], gf.spec_mul(f, y[i][c]));
        lemma_mul_associative(gf, f, z[r][j], y[i][c]);
        lemma_mul_associative(gf, z[r][j], f, y[i][c]);
        lemma_mul_commutative(gf, z[r][j], f);
        assert(h(i) == e(i) ^ extra);
        assert(g(j) == e(j) ^ extra);
        lemma_xor_facts(xor_sum(e, n), e(i), extra, 0);
        lemma_cancel_pair(xor_sum(e, n), e(i), e(j), extra);
        assert(mat_entry(*gf, z, y, r, c, n) == if r == c { 1u8 } else { 0u8 });
    }
}

/// Taking two terms out of a running XOR and putting them back leaves it unchanged.
proof fn lemma_swap_cancel(s: u8, x: u8, y: u8)
    by (bit_vector)
    ensures
        (((s ^ x) ^ y) ^ y) ^ x == s,
{
}

/// Replacing `a` by `a ^ x` and `b` by `b ^ x` in a running XOR leaves it unchanged.
proof fn lemma_cancel_pair(s: u8, a: u8, b: u8, x: u8)
    by (bit_vector)
    ensures
        ((((s ^ a) ^ (a ^ x)) ^ b) ^ (b ^ x)) == s,
{
}

/// Entry `c` of the product of `m` with the vector `v`, summing over `n` terms.
pub open spec fn mat_vec(gf: GaloisField, m: Seq<Seq<u8>>, v: Seq<u8>, c: int, n: int) -> u8 {
    xor_sum(|k: int| gf.spec_mul(m[c][k], v[k]), n)
}

/// A matrix that sends a vector with a nonzero entry to zero has no left inverse.
pub proof fn lemma_kernel_blocks_inverse(gf: &GaloisField, m: Seq<Seq<u8>>, v: Seq<u8>, n: int, i: int)
    requires
        gf.wf(),
        0 <= i < n,
        v[i] != 0,
        forall|c: int| 0 <= c < n ==> #[trigger] mat_vec(*gf, m, v, c, n) == 0,
    ensures
        forall|x: Seq<Seq<u8>>| !is_left_inverse(*gf, x, m, n),
{
    assert forall|x: Seq<Seq<u8>>| !is_left_inverse(*gf, x, m, n) by {
        if is_left_inverse(*gf, x, m, n) {
            let w = Seq::new(n as nat, |c: int| 0u8);
            assert forall|c: int| 0 <= c < n implies #[trigger] w[c] == xor_sum(
                |k: int| gf.spec_mul(m[c][k], v[k]),
                n,
            ) by {
                assert(mat_vec(*gf, m, v, c, n) == 0);
            }
            lemma_left_inverse_recovers(gf, x, m, v, w, n, i);
            assert forall|c: int| 0 <= c < n implies #[trigger] gf.spec_mul(x[i][c], w[c]) == 0 by {
                lemma_mul_identity(gf, x[i][c]);
            }
            lemma_xor_sum_zero(|c: int| gf.spec_mul(x[i][c], w[c]), n);
        }
    }
}

/// The right halves of the rows of an augmented matrix `[A | B]` with `n` columns a side.
pub open spec fn right_halves(rows: Seq<Seq<u8>>, n: int) -> Seq<Seq<u8>> {
    Seq::new(rows.len(), |r: int| rows[r].subrange(n, 2 * n))
}

/// A row times a matrix-vector product is the row-matrix product times the vector.
proof fn lemma_row_assoc(gf: &GaloisField, a: Seq<u8>, b: Seq<Seq<u8>>, v: Seq<u8>, n: int)
    requires
        gf.wf(),
    ensures
        xor_sum(|k: int| gf.spec_mul(a[k], mat_vec(*gf, b, v, k, n)), n) == xor_sum(
            |c: int| gf.spec_mul(xor_sum(|k: int| gf.spec_mul(a[k], b[k][c]), n), v[c]),
            n,
        ),
{
    let f = |k: int, c: int| gf.spec_mul(a[k], gf.spec_mul(b[k][c], v[c]));
    assert forall|k: int| 0 <= k < n implies #[trigger] gf.spec_mul(a[k], mat_vec(*gf, b, v, k, n)) == xor_sum(
        |c: int| f(k, c),
        n,
    ) by {
        lemma_xor_sum_scale(gf, a[k], |c: int| gf.spec_mul(b[k][c], v[c]), n);
        lemma_xor_sum_ext(
            |c: int| gf.spec_mul(a[k], (|c: int| gf.spec_mul(b[k][c], v[c]))(c)),
            |c: int| f(k, c),
            n,
        );
    }
    lemma_xor_sum_ext(
        |k: int| gf.spec_mul(a[k], mat_vec(*gf, b, v, k, n)),
        |k: int| xor_sum(|c: int| f(k, c), n),
        n,
    );
    lemma_xor_sum_exchange(f, n, n);
    let h = |c: int| xor_sum(|k: int| f(k, c), n);
    assert forall|c: int| 0 <= c < n implies #[trigger] h(c) == gf.spec_mul(
        xor_sum(|k: int| gf.spec_mul(a[k], b[k][c]), n),
        v[c],
    ) by {
        let g = |k: int| gf.spec_mul(a[k], b[k][c]);
        assert forall|k: int| 0 <= k < n implies #[trigger] f(k, c) == gf.spec_mul(v[c], g(k)) by {
            lemma_mul_associative(gf, a[k], b[k][c], v[c]);
            lemma_mul_commutative(gf, g(k), v[c]);
        }
        lemma_xor_sum_ext(|k: int| f(k, c), |k: int| gf.spec_mul(v[c], g(k)), n);
        lemma_xor_sum_scale(gf, v[c], g, n);
        lemma_mul_commutative(gf, v[c], xor_sum(g, n));
    }
    lemma_xor_sum_ext(
        h,
        |c: int| gf.spec_mul(xor_sum(|k: int| gf.spec_mul(a[k], b[k][c]), n), v[c]),
        n,
    );
}

/// Gauss-Jordan elimination that finds no pivot in column `i` shows the matrix singular:
/// when every row of `[A | B]` tracks `m`, `B` has a left inverse, the columns before `i`
/// of `A` are unit columns and no row from `i` on has a nonzero entry in column `i`, then
/// `m` has no left inverse.
pub proof fn lemma_stuck_column_singular(
    gf: &GaloisField,
    rows: Seq<Seq<u8>>,
    z: Seq<Seq<u8>>,
    m: Seq<Seq<u8>>,
    n: int,
    i: int,
)
    requires
        gf.wf(),
        rows.len() == n,
        0 <= i < n,
        forall|r: int| 0 <= r < n ==> row_tracks(*gf, #[trigger] rows[r], m, n),
        is_left_inverse(*gf, z, right_halves(rows, n), n),
        forall|r: int, c: int| 0 <= r < n && 0 <= c < i ==> #[trigger] rows[r][c] == if r == c { 1u8 } else { 0u8 },
        forall|r: int| i <= r < n ==> #[trigger] rows[r][i] == 0,
    ensures
        forall|x: Seq<Seq<u8>>| !is_left_inverse(*gf, x, m, n),
{
    let v = Seq::new(n as nat, |c: int| if c < i { rows[c][i] } else if c == i { 1u8 } else { 0u8 });
    let y = right_halves(rows, n);
    // Each row of A sends v to zero.
    assert forall|r: int| 0 <= r < n implies #[trigger] mat_vec(*gf, rows, v, r, n) == 0 by {
        let f = |c: int| gf.spec_mul(rows[r][c], v[c]);
        if r < i {
            let g = |c: int| if c == i { 0u8 } else { f(c) };
            assert forall|c: int| 0 <= c < n && c != r implies #[trigger] g(c) == 0 by {
                if c < i {
                    lemma_mul_identity(&*gf, v[c]);
                } else if c > i {
                    lemma_mul_identity(&*gf, rows[r][c]);
                }
            }
            lemma_xor_sum_single(g, r, n);
            lemma_mul_identity(&*gf, rows[r][i]);
            assert forall|c: int| 0 <= c < n && c != i implies #[trigger] g(c) == f(c) by {}
            lemma_xor_sum_update(g, f, i, n);
            lemma_xor_facts(rows[r][i], 0, 0, 0);
        } else {
            assert forall|c: int| 0 <= c < n implies #[trigger] f(c) == 0 by {
                if c < i {
                    lemma_mul_identity(&*gf, v[c]);
                } else if c == i {
                    lemma_mul_identity(&*gf, v[c]);
                } else {
                    lemma_mul_identity(&*gf, rows[r][c]);
                }
            }
            lemma_xor_sum_zero(f, n);
        }
    }
    // So B sends m v to zero.
    let w = Seq::new(n as nat, |k: int| mat_vec(*gf, m, v, k, n));
    let yw = Seq::new(n as nat, |r: int| xor_sum(|k: int| gf.spec_mul(y[r][k], w[k]), n));
    assert forall|r: int| 0 <= r < n implies #[trigger] yw[r] == 0 by {
        lemma_row_assoc(gf, y[r], m, v, n);
        lemma_xor_sum_ext(
            |k: int| gf.spec_mul(y[r][k], w[k]),
            |k: int| gf.spec_mul(y[r][k], mat_vec(*gf, m, v, k, n)),
            n,
        );
        assert(row_tracks(*gf, rows[r], m, n));
        assert forall|c: int| 0 <= c < n implies #[trigger] mat_entry(*gf, y, m, r, c, n) == rows[r][c] by {
            assert(rows[r][c] == xor_sum(|k: int| gf.spec_mul(rows[r][n + k], m[k][c]), n));
            lemma_xor_sum_ext(
                |k: int| gf.spec_mul(y[r][k], m[k][c]),
                |k: int| gf.spec_mul(rows[r][n + k], m[k][c]),
                n,
            );
        }
        let f1 = |c: int| gf.spec_mul(xor_sum(|k: int| gf.spec_mul(y[r][k], m[k][c]), n), v[c]);
        let g1 = |c: int| gf.spec_mul(rows[r][c], v[c]);
        assert forall|c: int| 0 <= c < n implies #[trigger] f1(c) == g1(c) by {
            assert(mat_entry(*gf, y, m, r, c, n) == rows[r][c]);
        }
        lemma_xor_sum_ext(f1, g1, n);
        assert(mat_vec(*gf, rows, v, r, n) == 0);
    }
    // As B has a left inverse, m v is zero.
    assert forall|c: int| 0 <= c < n implies #[trigger] mat_vec(*gf, m, v, c, n) == 0 by {
        assert forall|t: int| 0 <= t < n implies #[trigger] yw[t] == xor_sum(|k: int| gf.spec_mul(y[t][k], w[k]), n) by {}
        lemma_left_inverse_recovers(gf, z, y, w, yw, n, c);
        assert forall|t: int| 0 <= t < n implies #[trigger] gf.spec_mul(z[c][t], yw[t]) == 0 by {
            lemma_mul_identity(&*gf, z[c][t]);
        }
        lemma_xor_sum_zero(|t: int| gf.spec_mul(z[c][t], yw[t]), n);
    }
    lemma_kernel_blocks_inverse(gf, m, v, n, i);
}

/// The identity is a left inverse of the identity.
pub proof fn lemma_identity_inverse(gf: &GaloisField, z: Seq<Seq<u8>>, y: Seq<Seq<u8>>, n: int)
    requires
        gf.wf(),
        forall|r: int, k: int| 0 <= r < n && 0 <= k < n ==> #[trigger] z[r][k] == if r == k { 1u8 } else { 0u8 },
        forall|k: int, c: int| 0 <= k < n && 0 <= c < n ==> #[trigger] y[k][c] == if k == c { 1u8 } else { 0u8 },
    ensures
        is_left_inverse(*gf, z, y, n),
{
    assert forall|r: int, c: int| 0 <= r < n && 0 <= c < n implies #[trigger] mat_entry(*gf, z, y, r, c, n)
        == if r == c { 1u8 } else { 0u8 } by {
        let f = |k: int| gf.spec_mul(z[r][k], y[k][c]);
        assert forall|k: int| 0 <= k < n && k != r implies #[trigger] f(k) == 0 by {
            lemma_mul_identity(gf, y[k][c]);
        }
        lemma_xor_sum_single(f, r, n);
        lemma_mul_identity(gf, y[r][c]);
    }
}

/// Entry `(r, c)` of the product `a * b`, summing over `n` terms.
pub open spec fn mat_entry(gf: GaloisField, a: Seq<Seq<u8>>, b: Seq<Seq<u8>>, r: int, c: int, n: int) -> u8 {
    xor_sum(|k: int| gf.spec_mul(a[r][k], b[k][c]), n)
}

/// `inv` is a left inverse of the `n x n` matrix `m`: `inv * m` is the identity.
pub open spec fn is_left_inverse(gf: GaloisField, inv: Seq<Seq<u8>>, m: Seq<Seq<u8>>, n: int) -> bool {
    forall|r: int, c: int| 0 <= r < n && 0 <= c < n ==> #[trigger] mat_entry(gf, inv, m, r, c, n) == if r == c {
        1u8
    } else {
        0u8
    }
}

/// A row `[x | y]` of the augmented matrix with `x = y * m`: its left half is the
/// combination of the rows of `m` that its right half records.
pub open spec fn row_tracks(gf: GaloisField, row: Seq<u8>, m: Seq<Seq<u8>>, n: int) -> bool {
    &&& row.len() == 2 * n
    &&& forall|c: int|
        0 <= c < n ==> #[trigger] row[c] == xor_sum(|k: int| gf.spec_mul(row[n + k], m[k][c]), n)
}

/// Row `r` of `[m | I]` tracks `m`.
pub proof fn lemma_initial_row_tracks(gf: &GaloisField, row: Seq<u8>, m: Seq<Seq<u8>>, n: int, r: int)
    requires
        gf.wf(),
        0 <= r < n,
        m.len() == n,
        row.len() == 2 * n,
        forall|c: int| 0 <= c < n ==> #[trigger] row[c] == m[r][c],
        forall|k: int| 0 <= k < n ==> #[trigger] row[n + k] == if k == r { 1u8 } else { 0u8 },
    ensures
        row_tracks(*gf, row, m, n),
{
    assert forall|c: int| 0 <= c < n implies #[trigger] row[c] == xor_sum(
        |k: int| gf.spec_mul(row[n + k], m[k][c]),
        n,
    ) by {
        let f = |k: int| gf.spec_mul(row[n + k], m[k][c]);
        assert forall|k: int| 0 <= k < n && k != r implies #[trigger] f(k) == 0 by {
            lemma_mul_identity(gf, m[k][c]);
        }
        lemma_xor_sum_single(f, r, n);
        lemma_mul_identity(gf, m[r][c]);
    }
}

/// Dividing by a nonzero byte is multiplying by its reciprocal.
pub proof fn lemma_div_is_mul_reciprocal(gf: &GaloisField, a: u8, b: u8)
    requires
        gf.wf(),
        b != 0,
    ensures
        gf.spec_div(a, b) == gf.spec_mul(a, gf.spec_div(1, b)),
{
    let x = gf.spec_div(a, b);
    let inv = gf.spec_div(1, b);
    lemma_div_then_mul(gf, a, b);
    lemma_mul_inverse(gf, b);
    lemma_mul_commutative(gf, inv, b);
    lemma_mul_associative(gf, a, inv, b);
    lemma_mul_identity(gf, a);
    lemma_mul_identity(gf, x);
    lemma_mul_associative(gf, x, b, inv);
}

/// Dividing a tracking row by a nonzero byte keeps it tracking.
pub proof fn lemma_scaled_row_tracks(gf: &GaloisField, row: Seq<u8>, scaled: Seq<u8>, p: u8, m: Seq<Seq<u8>>, n: int)
    requires
        gf.wf(),
        p != 0,
        row_tracks(*gf, row, m, n),
        scaled.len() == 2 * n,
        forall|t: int| 0 <= t < 2 * n ==> #[trigger] scaled[t] == gf.spec_div(row[t], p),
    ensures
        row_tracks(*gf, scaled, m, n),
{
    let inv = gf.spec_div(1, p);
    assert forall|c: int| 0 <= c < n implies #[trigger] scaled[c] == xor_sum(
        |k: int| gf.spec_mul(scaled[n + k], m[k][c]),
        n,
    ) by {
        let f = |k: int| gf.spec_mul(row[n + k], m[k][c]);
        lemma_div_is_mul_reciprocal(gf, row[c], p);
        lemma_mul_commutative(gf, row[c], inv);
        lemma_xor_sum_scale(gf, inv, f, n);
        assert forall|k: int| 0 <= k < n implies gf.spec_mul(inv, #[trigger] f(k)) == gf.spec_mul(scaled[n + k], m[k][c]) by {
            lemma_mul_associative(gf, inv, row[n + k], m[k][c]);
            lemma_div_is_mul_reciprocal(gf, row[n + k], p);
            lemma_mul_commutative(gf, row[n + k], inv);
        }
        lemma_xor_sum_ext(
            |k: int| gf.spec_mul(inv, f(k)),
            |k: int| gf.spec_mul(scaled[n + k], m[k][c]),
            n,
        );
    }
}

/// Adding a multiple of one tracking row to another keeps it tracking.
pub proof fn lemma_combined_row_tracks(
    gf: &GaloisField,
    target: Seq<u8>,
    source: Seq<u8>,
    combined: Seq<u8>,
    factor: u8,
    m: Seq<Seq<u8>>,
    n: int,
)
    requires
        gf.wf(),
        row_tracks(*gf, target, m, n),
        row_tracks(*gf, source, m, n),
        combined.len() == 2 * n,
        forall|t: int| 0 <= t < 2 * n ==> #[trigger] combined[t] == target[t] ^ gf.spec_mul(factor, source[t]),
    ensures
        row_tracks(*gf, combined, m, n),
{
    assert forall|c: int| 0 <= c < n implies #[trigger] combined[c] == xor_sum(
        |k: int| gf.spec_mul(combined[n + k], m[k][c]),
        n,
    ) by {
        let ft = |k: int| gf.spec_mul(target[n + k], m[k][c]);
        let fs = |k: int| gf.spec_mul(source[n + k], m[k][c]);
        let fsf = |k: int| gf.spec_mul(factor, fs(k));
        lemma_xor_sum_scale(gf, factor, fs, n);
        lemma_xor_sum_add(ft, fsf, n);
        assert forall|k: int| 0 <= k < n implies #[trigger] ft(k) ^ fsf(k) == gf.spec_mul(combined[n + k], m[k][c]) by {
            lemma_mul_associative(gf, factor, source[n + k], m[k][c]);
            lemma_mul_distributes(gf, m[k][c], target[n + k], gf.spec_mul(factor, source[n + k]));
        }
        lemma_xor_sum_ext(
            |k: int| ft(k) ^ fsf(k),
            |k: int| gf.spec_mul(combined[n + k], m[k][c]),
            n,
        );
    }
}

/// When every row tracks `m` and the left half is the identity, the right half is a left
/// inverse of `m`.
pub proof fn lemma_tracking_identity_inverts(gf: &GaloisField, rows: Seq<Seq<u8>>, inv: Seq<Seq<u8>>, m: Seq<Seq<u8>>, n: int)
    requires
        gf.wf(),
        rows.len() == n,
        inv.len() == n,
        forall|r: int| 0 <= r < n ==> row_tracks(*gf, #[trigger] rows[r], m, n),
        forall|r: int, c: int| 0 <= r < n && 0 <= c < n ==> #[trigger] rows[r][c] == if r == c { 1u8 } else { 0u8 },
        forall|r: int| 0 <= r < n ==> (#[trigger] inv[r]) == rows[r].subrange(n, 2 * n),
    ensures
        is_left_inverse(*gf, inv, m, n),
{
    assert forall|r: int, c: int| 0 <= r < n && 0 <= c < n implies #[trigger] mat_entry(*gf, inv, m, r, c, n) == if r
        == c {
        1u8
    } else {
        0u8
    } by {
        assert(row_tracks(*gf, rows[r], m, n));
        assert(rows[r][c] == xor_sum(|k: int| gf.spec_mul(rows[r][n + k], m[k][c]), n));
        lemma_xor_sum_ext(
            |k: int| gf.spec_mul(inv[r][k], m[k][c]),
            |k: int| gf.spec_mul(rows[r][n + k], m[k][c]),
            n,
        );
    }
}

} // verus!
