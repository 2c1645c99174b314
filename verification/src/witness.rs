//! The witness generator: samples two test matrices entry by entry from a
//! seeded random stream and computes the output matrix exactly per the
//! row/row contraction, so the produced triple always satisfies the
//! relation the circuit enforces.

use vstd::prelude::*;
use vstd::arithmetic::div_mod::{
    lemma_fundamental_div_mod_converse, lemma_mod_bound, lemma_div_is_ordered,
};
use crate::circuit::{mm_relation, row_dot};
use crate::errors::Failure;
use crate::r1cs::{Entry, abs_val};
use crate::{MAX_N, ENTRY_BOUND};

verus! {

/// Lower end (inclusive) of the sampling range for test entries.
pub const SAMPLE_LOW: i64 = -100;

/// Upper end (exclusive) of the sampling range for test entries.
pub const SAMPLE_HIGH: i64 = 100;

/// Declares rand_chacha's `ChaCha20Rng` — the seedable random stream the
/// generator draws from — so that it can appear in signatures; the library
/// assumes nothing about what is inside it.
#[verifier::external_type_specification]
#[verifier::external_body]
pub struct ExChaCha20Rng(rand_chacha::ChaCha20Rng);

/// Relies on rand's `Rng::gen_range` over `SAMPLE_LOW..SAMPLE_HIGH`: the
/// result lies in that half-open range; the range is constant and
/// non-empty, so the call cannot panic.
#[verifier::external_body]
fn sample_entry(rng: &mut rand_chacha::ChaCha20Rng) -> (v: i64)
    ensures
        SAMPLE_LOW <= v < SAMPLE_HIGH,
{
    rand::Rng::gen_range(rng, SAMPLE_LOW..SAMPLE_HIGH)
}

/// A freshly sampled entry: assigned, within the sampling range.
pub open spec fn sample_ok(e: Entry) -> bool {
    e.is_assigned() && SAMPLE_LOW as int <= e.value() < SAMPLE_HIGH as int
}

/// Every slot of the row carries an assignment.
pub open spec fn row_assigned(s: Seq<Entry>) -> bool {
    forall|t: int| 0 <= t < s.len() ==> (#[trigger] s[t]).is_assigned()
}

/// Every value of the row stays within [`ENTRY_BOUND`] in magnitude.
pub open spec fn row_bounded(s: Seq<Entry>) -> bool {
    forall|t: int| 0 <= t < s.len() ==> abs_val((#[trigger] s[t]).value()) <= ENTRY_BOUND as int
}

#[verifier::loop_isolation(false)]
fn sample_row(len: usize, rng: &mut rand_chacha::ChaCha20Rng) -> (v: Vec<Entry>)
    ensures
        v@.len() == len,
        forall|t: int| 0 <= t < len ==> sample_ok(#[trigger] v@[t]),
{
    let mut v: Vec<Entry> = Vec::new();
    let mut t: usize = 0;
    while t < len
        invariant
            t <= len,
            v@.len() == t,
            forall|u: int| 0 <= u < t ==> sample_ok(#[trigger] v@[u]),
        decreases len - t,
    {
        let x = sample_entry(rng);
        v.push(Entry::Assigned(x));
        t = t + 1;
    }
    v
}

/// The row/row dot product over bounded rows grows at most linearly.
proof fn lemma_row_dot_bound(a: Seq<Entry>, b: Seq<Entry>, n: int, i: int, j: int, len: int)
    requires
        row_bounded(a),
        row_bounded(b),
        0 <= len,
        1 <= n,
        0 <= i,
        0 <= j,
        i * n + len <= a.len(),
        j * n + len <= b.len(),
    ensures
        abs_val(row_dot(a, b, n, i, j, len)) <= len * ((ENTRY_BOUND as int) * (ENTRY_BOUND
            as int)),
    decreases len,
{
    let cap = (ENTRY_BOUND as int) * (ENTRY_BOUND as int);
    assert(cap == 1048576 * 1048576);
    if len == 0 {
        assert(0 * cap == 0) by (nonlinear_arith);
    } else {
        lemma_row_dot_bound(a, b, n, i, j, len - 1);
        let x = a[i * n + (len - 1)].value();
        let y = b[j * n + (len - 1)].value();
        assert(0 <= i * n + (len - 1) && 0 <= j * n + (len - 1)) by (nonlinear_arith)
            requires 0 <= i, 0 <= j, 1 <= n, 1 <= len;
        assert(abs_val(x) <= ENTRY_BOUND as int);
        assert(abs_val(y) <= ENTRY_BOUND as int);
        assert(abs_val(x * y) <= cap) by (nonlinear_arith)
            requires
                abs_val(x) <= ENTRY_BOUND as int,
                abs_val(y) <= ENTRY_BOUND as int,
                cap == (ENTRY_BOUND as int) * (ENTRY_BOUND as int);
        assert((len - 1) * cap + cap == len * cap) by (nonlinear_arith);
    }
}

/// Computes the output matrix of the row/row contraction:
/// `C[i*n+j] = sum_k A[i*n+k] * B[j*n+k]`, exactly.
#[verifier::loop_isolation(false)]
pub fn row_row_product(n: usize, a: &Vec<Entry>, b: &Vec<Entry>) -> (r: Result<Vec<Entry>, Failure>)
    requires
        n <= MAX_N,
        row_bounded(a@),
        row_bounded(b@),
    ensures
        match r {
            Ok(c) => {
                &&& 1 <= n
                &&& a@.len() == n * n
                &&& b@.len() == n * n
                &&& row_assigned(a@)
                &&& row_assigned(b@)
                &&& c@.len() == n * n
                &&& row_assigned(c@)
                &&& mm_relation(n as int, a@, b@, c@)
            },
            Err(e) => {
                &&& e == Failure::DimensionMismatch <==> !(1 <= n && a@.len() == n * n && b@.len()
                    == n * n)
                &&& e == Failure::MissingWitness <==> (1 <= n && a@.len() == n * n && b@.len() == n
                    * n && !(row_assigned(a@) && row_assigned(b@)))
                &&& (e == Failure::DimensionMismatch || e == Failure::MissingWitness)
            },
        },
{
    if n < 1 {
        return Err(Failure::DimensionMismatch);
    }
    proof {
        assert(n * n <= 512 * 512 && 0 <= n * n) by (nonlinear_arith)
            requires
                1 <= n,
                n <= 512;
    }
    let nn = n * n;
    if a.len() != nn || b.len() != nn {
        return Err(Failure::DimensionMismatch);
    }
    if !(crate::circuit::all_assigned_row(a) && crate::circuit::all_assigned_row(b)) {
        return Err(Failure::MissingWitness);
    }
    let ghost cap = (ENTRY_BOUND as int) * (ENTRY_BOUND as int);
    proof {
        assert(cap == 1048576 * 1048576);
    }
    let mut c: Vec<Entry> = Vec::new();
    let mut s: usize = 0;
    while s < nn
        invariant
            s <= nn,
            c@.len() == s,
            forall|u: int|
                0 <= u < s ==> (#[trigger] c@[u]) == Entry::Assigned(
                    row_dot(a@, b@, n as int, u / (n as int), u % (n as int), n as int) as i64,
                ),
            forall|u: int|
                0 <= u < s ==> row_dot(
                    a@,
                    b@,
                    n as int,
                    u / (n as int),
                    u % (n as int),
                    n as int,
                ) == (#[trigger] c@[u]).value(),
        decreases nn - s,
    {
        proof {
            lemma_mod_bound(s as int, n as int);
            lemma_div_is_ordered(0, s as int, n as int);
            lemma_div_is_ordered(s as int, n * n - 1, n as int);
            assert((n * n - 1) / (n as int) == n - 1) by (nonlinear_arith)
                requires 1 <= n;
        }
        let i = s / n;
        let j = s % n;
        let mut acc: i64 = 0;
        let mut k: usize = 0;
        while k < n
            invariant
                k <= n,
                i == s as int / n as int,
                j == s as int % n as int,
                i < n,
                j < n,
                acc == row_dot(a@, b@, n as int, i as int, j as int, k as int),
                abs_val(acc as int) <= k * cap,
            decreases n - k,
        {
            proof {
                assert(i * n + k < n * n && j * n + k < n * n) by (nonlinear_arith)
                    requires 0 <= i < n, 0 <= j < n, 0 <= k < n;
                assert(abs_val(a@[i * n + k as int].value()) <= ENTRY_BOUND as int);
                assert(abs_val(b@[j * n + k as int].value()) <= ENTRY_BOUND as int);
            }
            let ae = a[i * n + k];
            let be = b[j * n + k];
            let x: i64 = match ae {
                Entry::Assigned(x) => x,
                Entry::Unassigned => 0,
            };
            let y: i64 = match be {
                Entry::Assigned(y) => y,
                Entry::Unassigned => 0,
            };
            proof {
                assert(x as int == a@[i * n + k as int].value());
                assert(y as int == b@[j * n + k as int].value());
                assert(abs_val((x as int) * (y as int)) <= cap) by (nonlinear_arith)
                    requires
                        abs_val(x as int) <= ENTRY_BOUND as int,
                        abs_val(y as int) <= ENTRY_BOUND as int,
                        cap == (ENTRY_BOUND as int) * (ENTRY_BOUND as int);
                assert(k * cap + cap == (k + 1) * cap) by (nonlinear_arith);
                assert((k + 1) * cap <= 512 * (1048576 * 1048576)) by (nonlinear_arith)
                    requires
                        k + 1 <= 512,
                        cap == 1048576 * 1048576;
            }
            acc = acc + x * y;
            k = k + 1;
        }
        c.push(Entry::Assigned(acc));
        s = s + 1;
    }
    proof {
        assert forall|i: int, j: int| 0 <= i < n && 0 <= j < n implies c@[i * (n as int) + j]
            .value() == #[trigger] row_dot(a@, b@, n as int, i, j, n as int) by {
            assert(0 <= i * (n as int) + j && i * (n as int) + j < n * n) by (nonlinear_arith)
                requires 0 <= i < n, 0 <= j < n;
            lemma_fundamental_div_mod_converse(i * (n as int) + j, n as int, i, j);
        }
    }
    Ok(c)
}

/// Draws two matrices from the random stream and computes the matching
/// output matrix: the returned triple always satisfies the row/row
/// contraction, and the inputs stay within the sampling range.
pub fn generate(n: usize, rng: &mut rand_chacha::ChaCha20Rng) -> (w: (
    Vec<Entry>,
    Vec<Entry>,
    Vec<Entry>,
))
    requires
        1 <= n,
        n <= MAX_N,
    ensures
        w.0@.len() == n * n,
        w.1@.len() == n * n,
        w.2@.len() == n * n,
        forall|t: int| 0 <= t < n * n ==> sample_ok(#[trigger] w.0@[t]),
        forall|t: int| 0 <= t < n * n ==> sample_ok(#[trigger] w.1@[t]),
        row_assigned(w.2@),
        mm_relation(n as int, w.0@, w.1@, w.2@),
{
    proof {
        assert(n * n <= 512 * 512 && 0 <= n * n) by (nonlinear_arith)
            requires
                1 <= n,
                n <= 512;
    }
    let nn = n * n;
    let a = sample_row(nn, rng);
    let b = sample_row(nn, rng);
    proof {
        assert forall|t: int| 0 <= t < a@.len() implies abs_val((#[trigger] a@[t]).value())
            <= ENTRY_BOUND as int by {
            assert(sample_ok(a@[t]));
        }
        assert forall|t: int| 0 <= t < b@.len() implies abs_val((#[trigger] b@[t]).value())
            <= ENTRY_BOUND as int by {
            assert(sample_ok(b@[t]));
        }
        assert forall|t: int| 0 <= t < a@.len() implies (#[trigger] a@[t]).is_assigned() by {
            assert(sample_ok(a@[t]));
        }
        assert forall|t: int| 0 <= t < b@.len() implies (#[trigger] b@[t]).is_assigned() by {
            assert(sample_ok(b@[t]));
        }
    }
    let c = match row_row_product(n, &a, &b) {
        Ok(c) => c,
        Err(_) => {
            proof {
                assert(false);
            }
            Vec::new()
        },
    };
    (a, b, c)
}

} // verus!
