//! The headline facts about the generated system: for a fully assigned
//! circuit it is satisfied exactly when the row/row contraction holds, any
//! satisfying assignment that agrees with the circuit's entries forces the
//! contraction, and changing a single output entry of a correct circuit
//! breaks it.

use vstd::prelude::*;
use crate::errors::Failure;
use vstd::arithmetic::div_mod::{
    lemma_fundamental_div_mod, lemma_fundamental_div_mod_converse, lemma_mod_bound,
    lemma_div_is_ordered,
};
use crate::circuit::{
    synthesize, Mode, Circuit, mm_shape, mm_values, mm_relation, mult_con_shape, sum_con_shape, mult_entry_ok,
    mult_entry_at, row_dot, var_a, var_b, var_c, var_one, num_vars_spec,
};
use crate::indexing::{
    encode_spec, decode_i, decode_j, decode_k, lemma_encode_in_range,
    lemma_decode_encode_round_trip, lemma_encode_decode_round_trip,
};
use crate::r1cs::{check_satisfied, Entry, R1cs, lc_eval, lemma_lc_eval_singleton};

verus! {

/// An assignment that agrees with the circuit on the public one and on the
/// `A`, `B` and `C` variable blocks; the product variables are left free.
pub open spec fn assignment_matches_io(cir: Circuit, vals: Seq<int>) -> bool {
    let n = cir.n as int;
    &&& vals.len() == num_vars_spec(n)
    &&& vals[var_one()] == 1
    &&& forall|t: int| 0 <= t < n * n ==> vals[var_a(n, t)] == (#[trigger] cir.a@[t]).value()
    &&& forall|t: int| 0 <= t < n * n ==> vals[var_b(n, t)] == (#[trigger] cir.b@[t]).value()
    &&& forall|t: int| 0 <= t < n * n ==> vals[var_c(n, t)] == (#[trigger] cir.c@[t]).value()
}

/// A summation constraint's left-hand side evaluates to the row/row dot
/// product once every listed variable carries the matching product.
proof fn lemma_sum_left_eval(
    lc: Seq<usize>,
    vals: Seq<int>,
    a: Seq<Entry>,
    b: Seq<Entry>,
    n: int,
    i: int,
    j: int,
    len: int,
)
    requires
        0 <= len,
        lc.len() == len,
        forall|u: int|
            0 <= u < len ==> vals[(#[trigger] lc[u]) as int] == a[i * n + u].value() * b[j * n
                + u].value(),
    ensures
        lc_eval(lc, vals) == row_dot(a, b, n, i, j, len),
    decreases len,
{
    if len > 0 {
        assert forall|u: int| 0 <= u < len - 1 implies vals[(#[trigger] lc.drop_last()[u]) as int]
            == a[i * n + u].value() * b[j * n + u].value() by {
            assert(lc.drop_last()[u] == lc[u]);
        }
        lemma_sum_left_eval(lc.drop_last(), vals, a, b, n, i, j, len - 1);
        assert(lc.last() == lc[len - 1]);
    }
}

/// If the circuit's entries obey the row/row contraction, the generated
/// system is satisfied by the assignment it carries.
pub proof fn lemma_relation_implies_satisfied(cir: Circuit, sys: R1cs)
    requires
        cir.dims_ok(),
        cir.fully_assigned(),
        mm_shape(cir.n as int, sys),
        mm_values(cir, sys),
        mm_relation(cir.n as int, cir.a@, cir.b@, cir.c@),
    ensures
        sys.satisfied(),
{
    let n = cir.n as int;
    let vals = sys.values();
    assert(0 <= n * n && n * n <= n * n * n) by (nonlinear_arith)
        requires 1 <= n;
    assert forall|t: int|
        0 <= t < sys.constraints@.len() implies (#[trigger] sys.constraints@[t]).holds(vals) by {
        let con = sys.constraints@[t];
        if t < n * n * n {
            assert(mult_con_shape(n, t, con));
            lemma_decode_encode_round_trip(n, t);
            let i = decode_i(n, t);
            let j = decode_j(n, t);
            let k = decode_k(n, t);
            assert(0 <= i * n + k && i * n + k < n * n && 0 <= j * n + k && j * n + k < n * n)
                by (nonlinear_arith)
                requires 0 <= i < n, 0 <= j < n, 0 <= k < n;
            assert(sys.vars@[var_a(n, i * n + k)] == cir.a@[i * n + k]);
            assert(sys.vars@[var_b(n, j * n + k)] == cir.b@[j * n + k]);
            assert(mult_entry_ok(cir, t, mult_entry_at(sys.vars@, n, t)));
            lemma_lc_eval_singleton(con.left@, vals);
            lemma_lc_eval_singleton(con.right@, vals);
            lemma_lc_eval_singleton(con.output@, vals);
            assert(vals[con.left@[0] as int] == sys.vars@[con.left@[0] as int].value());
            assert(vals[con.right@[0] as int] == sys.vars@[con.right@[0] as int].value());
            assert(vals[con.output@[0] as int] == sys.vars@[con.output@[0] as int].value());
            assert(cir.a@[i * n + k].is_assigned());
            assert(cir.b@[j * n + k].is_assigned());
        } else {
            assert(sum_con_shape(n, t, con));
            let s = t - n * n * n;
            let i = s / n;
            let j = s % n;
            lemma_mod_bound(s, n);
            lemma_div_is_ordered(0, s, n);
            lemma_div_is_ordered(s, n * n - 1, n);
            assert((n * n - 1) / n == n - 1) by (nonlinear_arith)
                requires 1 <= n;
            assert forall|u: int| 0 <= u < con.left@.len() implies vals[(#[trigger] con.left@[u])
                as int] == cir.a@[i * n + u].value() * cir.b@[j * n + u].value() by {
                lemma_encode_in_range(n, i, j, u);
                lemma_encode_decode_round_trip(n, i, j, u);
                let p = encode_spec(n, i, j, u);
                assert(mult_entry_ok(cir, p, mult_entry_at(sys.vars@, n, p)));
                assert(0 <= i * n + u && i * n + u < n * n && 0 <= j * n + u && j * n + u < n
                    * n) by (nonlinear_arith)
                    requires 0 <= i < n, 0 <= j < n, 0 <= u < n;
                assert(cir.a@[i * n + u].is_assigned());
                assert(cir.b@[j * n + u].is_assigned());
                assert(vals[con.left@[u] as int] == sys.vars@[con.left@[u] as int].value());
            }
            lemma_sum_left_eval(con.left@, vals, cir.a@, cir.b@, n, i, j, n);
            lemma_lc_eval_singleton(con.right@, vals);
            lemma_lc_eval_singleton(con.output@, vals);
            assert(vals[0] == sys.vars@[0].value());
            assert(vals[con.output@[0] as int] == sys.vars@[con.output@[0] as int].value());
            assert(sys.vars@[var_c(n, s)] == cir.c@[s]);
            lemma_fundamental_div_mod(s, n);
            assert(i * n + j == s) by (nonlinear_arith)
                requires s == n * (s / n) + s % n, i == s / n, j == s % n;
            assert(cir.c@[i * n + j].value() == row_dot(cir.a@, cir.b@, n, i, j, n));
        }
    }
}

/// Any assignment that satisfies the generated layout and agrees with the
/// circuit's entries forces the row/row contraction: the product variables
/// cannot be bent to make a wrong `C` pass.
pub proof fn lemma_satisfying_assignment_forces_relation(cir: Circuit, sys: R1cs, vals: Seq<int>)
    requires
        cir.dims_ok(),
        cir.fully_assigned(),
        mm_shape(cir.n as int, sys),
        assignment_matches_io(cir, vals),
        sys.satisfied_by(vals),
    ensures
        mm_relation(cir.n as int, cir.a@, cir.b@, cir.c@),
{
    let n = cir.n as int;
    assert(0 <= n * n && n * n <= n * n * n) by (nonlinear_arith)
        requires 1 <= n;
    assert forall|i: int, j: int| 0 <= i < n && 0 <= j < n implies cir.c@[i * n + j].value()
        == #[trigger] row_dot(cir.a@, cir.b@, n, i, j, n) by {
        let s = i * n + j;
        assert(0 <= i * n + j && i * n + j < n * n) by (nonlinear_arith)
            requires 0 <= i < n, 0 <= j < n;
        lemma_fundamental_div_mod_converse(s, n, i, j);
        let t = n * n * n + s;
        assert(sum_con_shape(n, t, sys.constraints@[t]));
        assert(sys.constraints@[t].holds(vals));
        let con = sys.constraints@[t];
        assert forall|u: int| 0 <= u < con.left@.len() implies vals[(#[trigger] con.left@[u])
            as int] == cir.a@[i * n + u].value() * cir.b@[j * n + u].value() by {
            lemma_encode_in_range(n, i, j, u);
            lemma_encode_decode_round_trip(n, i, j, u);
            let p = encode_spec(n, i, j, u);
            assert(mult_con_shape(n, p, sys.constraints@[p]));
            assert(sys.constraints@[p].holds(vals));
            let mc = sys.constraints@[p];
            lemma_lc_eval_singleton(mc.left@, vals);
            lemma_lc_eval_singleton(mc.right@, vals);
            lemma_lc_eval_singleton(mc.output@, vals);
            assert(0 <= i * n + u && i * n + u < n * n && 0 <= j * n + u && j * n + u < n * n)
                by (nonlinear_arith)
                requires 0 <= i < n, 0 <= j < n, 0 <= u < n;
            assert(vals[var_a(n, i * n + u)] == cir.a@[i * n + u].value());
            assert(vals[var_b(n, j * n + u)] == cir.b@[j * n + u].value());
        }
        lemma_sum_left_eval(con.left@, vals, cir.a@, cir.b@, n, i, j, n);
        lemma_lc_eval_singleton(con.right@, vals);
        lemma_lc_eval_singleton(con.output@, vals);
        assert(vals[var_c(n, s)] == cir.c@[s].value());
    }
}

/// For a fully assigned circuit, the generated system's own assignment
/// satisfies it exactly when the row/row contraction holds of the entries.
pub proof fn lemma_satisfied_iff_relation(cir: Circuit, sys: R1cs)
    requires
        cir.dims_ok(),
        cir.fully_assigned(),
        mm_shape(cir.n as int, sys),
        mm_values(cir, sys),
    ensures
        sys.satisfied() <==> mm_relation(cir.n as int, cir.a@, cir.b@, cir.c@),
{
    let n = cir.n as int;
    assert(0 <= n * n && n * n <= n * n * n) by (nonlinear_arith)
        requires 1 <= n;
    if mm_relation(n, cir.a@, cir.b@, cir.c@) {
        lemma_relation_implies_satisfied(cir, sys);
    }
    if sys.satisfied() {
        let vals = sys.values();
        assert forall|t: int| 0 <= t < n * n implies vals[var_a(n, t)] == (#[trigger] cir.a@[t])
            .value() by {
            assert(sys.vars@[var_a(n, t)] == cir.a@[t]);
            assert(vals[var_a(n, t)] == sys.vars@[var_a(n, t)].value());
        }
        assert forall|t: int| 0 <= t < n * n implies vals[var_b(n, t)] == (#[trigger] cir.b@[t])
            .value() by {
            assert(sys.vars@[var_b(n, t)] == cir.b@[t]);
            assert(vals[var_b(n, t)] == sys.vars@[var_b(n, t)].value());
        }
        assert forall|t: int| 0 <= t < n * n implies vals[var_c(n, t)] == (#[trigger] cir.c@[t])
            .value() by {
            assert(sys.vars@[var_c(n, t)] == cir.c@[t]);
            assert(vals[var_c(n, t)] == sys.vars@[var_c(n, t)].value());
        }
        assert(vals[0] == sys.vars@[0].value());
        lemma_satisfying_assignment_forces_relation(cir, sys, vals);
    }
}

/// Synthesizes the witness circuit and decides, exactly, whether its
/// entries obey the row/row contraction: the executable face of
/// [`lemma_satisfied_iff_relation`].
pub fn circuit_obeys_relation(cir: &Circuit) -> (r: Result<bool, Failure>)
    requires
        cir.n <= crate::MAX_N,
        cir.entries_bounded(),
    ensures
        match r {
            Ok(b) => {
                &&& cir.dims_ok()
                &&& cir.fully_assigned()
                &&& (b <==> mm_relation(cir.n as int, cir.a@, cir.b@, cir.c@))
            },
            Err(e) => {
                &&& (e == Failure::DimensionMismatch <==> !cir.dims_ok())
                &&& (e == Failure::MissingWitness <==> cir.dims_ok() && !cir.fully_assigned())
                &&& (e == Failure::DimensionMismatch || e == Failure::MissingWitness)
            },
        },
{
    match synthesize(cir, Mode::NeedsAssignment) {
        Ok(sys) => {
            proof {
                lemma_satisfied_iff_relation(*cir, sys);
            }
            Ok(check_satisfied(&sys))
        },
        Err(e) => Err(e),
    }
}

/// Changing the value behind any single output entry of a circuit that
/// obeys the contraction yields one that violates it.
pub proof fn lemma_mutated_output_breaks_relation(
    n: int,
    a: Seq<Entry>,
    b: Seq<Entry>,
    c1: Seq<Entry>,
    c2: Seq<Entry>,
    p: int,
)
    requires
        1 <= n,
        mm_relation(n, a, b, c1),
        0 <= p < n * n,
        c2[p].value() != c1[p].value(),
    ensures
        !mm_relation(n, a, b, c2),
{
    let i = p / n;
    let j = p % n;
    lemma_mod_bound(p, n);
    lemma_div_is_ordered(0, p, n);
    lemma_div_is_ordered(p, n * n - 1, n);
    assert((n * n - 1) / n == n - 1) by (nonlinear_arith)
        requires 1 <= n;
    lemma_fundamental_div_mod(p, n);
    assert(i * n + j == p) by (nonlinear_arith)
        requires p == n * (p / n) + p % n, i == p / n, j == p % n;
    assert(c1[p].value() == row_dot(a, b, n, i, j, n));
    if mm_relation(n, a, b, c2) {
        assert(c2[p].value() == row_dot(a, b, n, i, j, n));
        assert(false);
    }
}

} // verus!
