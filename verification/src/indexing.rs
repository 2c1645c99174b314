//! The flattened-index codec for the product-variable block: the triple
//! `(i, j, k)` lives at `i * n^2 + j * n + k`, and that mapping round-trips
//! exactly. Constraint and variable ordering must match between the
//! shape-only circuit used for indexing and the witness circuit used for
//! proving, so this codec is the single source of truth for both.

use vstd::prelude::*;
use vstd::arithmetic::div_mod::{
    lemma_fundamental_div_mod, lemma_fundamental_div_mod_converse, lemma_mod_bound,
    lemma_div_is_ordered,
};
use vstd::arithmetic::mul::lemma_mul_inequality;

verus! {

/// Flattened position of the triple `(i, j, k)`, row-major.
pub open spec fn encode_spec(n: int, i: int, j: int, k: int) -> int {
    i * n * n + j * n + k
}

/// First coordinate recovered from a flattened index.
pub open spec fn decode_i(n: int, idx: int) -> int {
    idx / n / n
}

/// Second coordinate recovered from a flattened index.
pub open spec fn decode_j(n: int, idx: int) -> int {
    idx / n % n
}

/// Third coordinate recovered from a flattened index.
pub open spec fn decode_k(n: int, idx: int) -> int {
    idx % n
}

proof fn lemma_encode_in_range_raw(n: int, i: int, j: int, k: int)
    by (nonlinear_arith)
    requires
        1 <= n,
        0 <= i < n,
        0 <= j < n,
        0 <= k < n,
    ensures
        0 <= i * n * n + j * n + k < n * n * n,
{
}

/// A valid triple encodes into the valid index range `[0, n^3)`.
pub proof fn lemma_encode_in_range(n: int, i: int, j: int, k: int)
    requires
        1 <= n,
        0 <= i < n,
        0 <= j < n,
        0 <= k < n,
    ensures
        0 <= encode_spec(n, i, j, k) < n * n * n,
{
    lemma_encode_in_range_raw(n, i, j, k);
}

proof fn lemma_decode_encode_raw(n: int, idx: int)
    requires
        1 <= n,
        0 <= idx < n * n * n,
    ensures
        0 <= idx / n / n < n,
        0 <= idx / n % n < n,
        0 <= idx % n < n,
        (idx / n / n) * n * n + (idx / n % n) * n + idx % n == idx,
{
    lemma_fundamental_div_mod(idx, n);
    lemma_fundamental_div_mod(idx / n, n);
    lemma_mod_bound(idx, n);
    lemma_mod_bound(idx / n, n);
    assert(idx / n >= 0) by {
        lemma_div_is_ordered(0, idx, n);
    }
    assert(idx / n < n * n) by {
        assert(idx <= n * (n * n) - 1) by (nonlinear_arith)
            requires 1 <= n, idx < n * n * n;
        lemma_div_is_ordered(idx, n * (n * n) - 1, n);
        assert((n * (n * n) - 1) / n == n * n - 1) by (nonlinear_arith)
            requires 1 <= n;
    }
    assert(idx / n / n >= 0) by {
        lemma_div_is_ordered(0, idx / n, n);
    }
    assert(idx / n / n < n) by {
        lemma_div_is_ordered(idx / n, n * n - 1, n);
        assert((n * n - 1) / n == n - 1) by (nonlinear_arith)
            requires 1 <= n;
    }
    assert((idx / n / n) * n * n + (idx / n % n) * n + idx % n == idx) by (nonlinear_arith)
        requires
            1 <= n,
            idx == n * (idx / n) + idx % n,
            idx / n == n * (idx / n / n) + idx / n % n;
}

/// Decoding a valid index yields coordinates in `[0, n)` that encode back
/// to the same index.
pub proof fn lemma_decode_encode_round_trip(n: int, idx: int)
    requires
        1 <= n,
        0 <= idx < n * n * n,
    ensures
        0 <= decode_i(n, idx) < n,
        0 <= decode_j(n, idx) < n,
        0 <= decode_k(n, idx) < n,
        encode_spec(n, decode_i(n, idx), decode_j(n, idx), decode_k(n, idx)) == idx,
{
    lemma_decode_encode_raw(n, idx);
}

/// Encoding a valid triple and decoding the result recovers the triple.
pub proof fn lemma_encode_decode_round_trip(n: int, i: int, j: int, k: int)
    requires
        1 <= n,
        0 <= i < n,
        0 <= j < n,
        0 <= k < n,
    ensures
        decode_i(n, encode_spec(n, i, j, k)) == i,
        decode_j(n, encode_spec(n, i, j, k)) == j,
        decode_k(n, encode_spec(n, i, j, k)) == k,
{
    let idx = encode_spec(n, i, j, k);
    assert(idx == (n * i + j) * n + k && 0 <= n * i + j && n * i + j == i * n + j)
        by (nonlinear_arith)
        requires
            1 <= n,
            0 <= i,
            0 <= j,
            idx == i * n * n + j * n + k;
    lemma_fundamental_div_mod_converse(idx, n, n * i + j, k);
    lemma_fundamental_div_mod_converse(n * i + j, n, i, j);
}

/// Flattens a valid triple `(i, j, k)` into its index in `[0, n^3)`.
pub fn encode(n: usize, i: usize, j: usize, k: usize) -> (idx: usize)
    requires
        1 <= n,
        i < n,
        j < n,
        k < n,
        n * n * n <= usize::MAX,
    ensures
        idx == encode_spec(n as int, i as int, j as int, k as int),
        idx < n * n * n,
{
    proof {
        lemma_encode_in_range_raw(n as int, i as int, j as int, k as int);
        assert(i * n * n <= i * n * n + j * n + k) by (nonlinear_arith)
            requires 0 <= j, 0 <= k, 0 <= i, 1 <= n;
        assert(i * n <= i * n * n) by (nonlinear_arith)
            requires 0 <= i, 1 <= n;
    }
    i * n * n + j * n + k
}

/// Recovers the triple `(i, j, k)` from a flattened index in `[0, n^3)`.
pub fn decode(n: usize, idx: usize) -> (r: (usize, usize, usize))
    requires
        1 <= n,
        idx < n * n * n,
    ensures
        r.0 == decode_i(n as int, idx as int),
        r.1 == decode_j(n as int, idx as int),
        r.2 == decode_k(n as int, idx as int),
        r.0 < n,
        r.1 < n,
        r.2 < n,
        encode_spec(n as int, r.0 as int, r.1 as int, r.2 as int) == idx,
{
    proof {
        lemma_decode_encode_raw(n as int, idx as int);
    }
    (idx / n / n, idx / n % n, idx % n)
}

} // verus!
