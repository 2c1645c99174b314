//! The capacity estimator: the (constraints, variables, non-zeros) bounds
//! handed to the proof backend's universal setup, as a pure function of the
//! side length, together with the proof that every system the generator can
//! produce for that side length fits within them.

use vstd::prelude::*;
use crate::circuit::{mm_shape, mult_con_shape, sum_con_shape, num_constraints_spec, num_vars_spec};
use crate::r1cs::{Constraint, R1cs, seq_total_terms};
use crate::MAX_N;

verus! {

/// The bounds for the backend's universal setup.
pub struct Capacity {
    pub max_constraints: usize,
    pub max_variables: usize,
    pub max_non_zeros: usize,
}

/// Exactly the generator's constraint count: `n^3 + n^2`.
pub open spec fn est_constraints(n: int) -> int {
    n * n * n + n * n
}

/// Exactly the generator's variable count: `1 + 3n^2 + n^3`.
pub open spec fn est_variables(n: int) -> int {
    1 + 3 * (n * n) + n * n * n
}

/// The non-zero entries across all three constraint matrices together:
/// `4n^3 + 2n^2` (three per multiplication constraint, `n + 2` per
/// summation constraint).
pub open spec fn est_non_zeros(n: int) -> int {
    4 * (n * n * n) + 2 * (n * n)
}

/// Sizes the backend's universal setup for side length `n`.
pub fn estimate(n: usize) -> (cap: Capacity)
    requires
        1 <= n,
        n <= MAX_N,
    ensures
        cap.max_constraints == est_constraints(n as int),
        cap.max_variables == est_variables(n as int),
        cap.max_non_zeros == est_non_zeros(n as int),
        cap.max_constraints >= num_constraints_spec(n as int),
        cap.max_variables >= num_vars_spec(n as int),
{
    proof {
        assert(0 <= n * n && n * n <= 512 * 512 && n * n * n <= 512 * 512 * 512 && n * n <= n
            * n * n) by (nonlinear_arith)
            requires
                1 <= n,
                n <= 512;
    }
    let nn = n * n;
    let nnn = nn * n;
    Capacity {
        max_constraints: nnn + nn,
        max_variables: 1 + 3 * nn + nnn,
        max_non_zeros: 4 * nnn + 2 * nn,
    }
}

proof fn lemma_terms_mult_prefix(cs: Seq<Constraint>, n: int, t: int)
    requires
        1 <= n,
        0 <= t <= n * n * n,
        t <= cs.len(),
        forall|u: int| 0 <= u < n * n * n && u < cs.len() ==> mult_con_shape(
            n,
            u,
            #[trigger] cs[u],
        ),
    ensures
        seq_total_terms(cs.take(t)) == 3 * t,
    decreases t,
{
    if t > 0 {
        lemma_terms_mult_prefix(cs, n, t - 1);
        assert(cs.take(t).drop_last() =~= cs.take(t - 1));
        assert(cs.take(t).last() == cs[t - 1]);
        assert(mult_con_shape(n, t - 1, cs[t - 1]));
    } else {
        assert(cs.take(0).len() == 0);
    }
}

proof fn lemma_terms_sum_prefix(cs: Seq<Constraint>, n: int, s: int)
    requires
        1 <= n,
        0 <= s <= n * n,
        n * n * n + s <= cs.len(),
        forall|u: int| 0 <= u < n * n * n && u < cs.len() ==> mult_con_shape(
            n,
            u,
            #[trigger] cs[u],
        ),
        forall|u: int| n * n * n <= u < n * n * n + n * n && u < cs.len() ==> sum_con_shape(
            n,
            u,
            #[trigger] cs[u],
        ),
    ensures
        seq_total_terms(cs.take(n * n * n + s)) == 3 * (n * n * n) + s * (n + 2),
    decreases s,
{
    if s > 0 {
        lemma_terms_sum_prefix(cs, n, s - 1);
        let t = n * n * n + s;
        assert(cs.take(t).drop_last() =~= cs.take(t - 1));
        assert(cs.take(t).last() == cs[t - 1]);
        assert(sum_con_shape(n, t - 1, cs[t - 1]));
        assert(cs[t - 1].terms() == n + 2);
        assert((s - 1) * (n + 2) + (n + 2) == s * (n + 2)) by (nonlinear_arith);
    } else {
        lemma_terms_mult_prefix(cs, n, n * n * n);
    }
}

/// Every system with the generator's layout fits within the estimated
/// bounds; the non-zero count is met exactly.
pub proof fn lemma_capacity_sufficient(n: int, sys: R1cs)
    requires
        1 <= n,
        mm_shape(n, sys),
    ensures
        sys.constraints@.len() <= est_constraints(n),
        sys.vars@.len() <= est_variables(n),
        sys.total_terms() == est_non_zeros(n),
{
    assert(0 <= n * n && n * n <= n * n * n) by (nonlinear_arith)
        requires 1 <= n;
    lemma_terms_sum_prefix(sys.constraints@, n, n * n);
    assert(sys.constraints@.take(n * n * n + n * n) =~= sys.constraints@);
    assert((n * n) * (n + 2) == n * n * n + 2 * (n * n)) by (nonlinear_arith);
}

} // verus!
