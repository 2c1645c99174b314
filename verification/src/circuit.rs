//! The circuit generator: compiles the side length `n` and three matrices
//! into the rank-1 constraint system enforcing the row/row contraction
//! `C[i][j] = sum_k A[i][k] * B[j][k]`.
//!
//! Variable order: the single public variable fixed to one, then the
//! entries of `A`, `B` and `C`, then the `n^3` product variables.
//! Constraint order: the `n^3` multiplication constraints
//! `A[i*n+k] * B[j*n+k] = mult[t]` in flattened-index order, then the `n^2`
//! summation constraints `(sum_k mult) * 1 = C[i*n+j]`. Both orders are
//! pinned exactly: the proof backend binds its keys to them, so the
//! shape-only pass used for indexing and the witness pass used for proving
//! must produce identical layouts.

use vstd::prelude::*;
use vstd::arithmetic::div_mod::{lemma_mod_bound, lemma_div_is_ordered};
use crate::errors::Failure;
use crate::indexing::{
    encode, decode, encode_spec, decode_i, decode_j, decode_k, lemma_encode_in_range,
    lemma_decode_encode_round_trip, lemma_encode_decode_round_trip,
};
use crate::r1cs::{Entry, Constraint, R1cs, abs_val, EVAL_LIMIT};
use crate::{MAX_N, ENTRY_BOUND};

verus! {

/// Index of the sole public variable, fixed to one.
pub open spec fn var_one() -> int {
    0
}

/// Variable index of entry `t` of `A`.
pub open spec fn var_a(n: int, t: int) -> int {
    1 + t
}

/// Variable index of entry `t` of `B`.
pub open spec fn var_b(n: int, t: int) -> int {
    1 + n * n + t
}

/// Variable index of entry `t` of `C`.
pub open spec fn var_c(n: int, t: int) -> int {
    1 + 2 * (n * n) + t
}

/// Variable index of product variable `t`.
pub open spec fn var_m(n: int, t: int) -> int {
    1 + 3 * (n * n) + t
}

/// Total allocated variables: `1 + 3n^2 + n^3`.
pub open spec fn num_vars_spec(n: int) -> int {
    1 + 3 * (n * n) + n * n * n
}

/// Total registered constraints: `n^3 + n^2`.
pub open spec fn num_constraints_spec(n: int) -> int {
    n * n * n + n * n
}

/// The product variable slot for flattened index `t`.
pub open spec fn mult_entry_at(vars: Seq<Entry>, n: int, t: int) -> Entry {
    vars[var_m(n, t)]
}

/// A square circuit instance: the side length and the three matrices,
/// each of `n^2` entries, either all carrying a witness (proving) or all
/// unassigned (the shape-only instance used for indexing).
pub struct Circuit {
    pub n: usize,
    pub a: Vec<Entry>,
    pub b: Vec<Entry>,
    pub c: Vec<Entry>,
}

/// Whether a synthesis pass demands a witness behind every entry.
#[derive(Clone, Copy, PartialEq, Eq, Structural, Debug)]
pub enum Mode {
    /// Absent entries are allowed; variables are allocated unassigned.
    ShapeOnly,
    /// The proving path: an absent entry is a `MissingWitness` failure.
    NeedsAssignment,
}

impl Circuit {
    /// The documented precondition: a positive side length and `n^2`
    /// entries in each matrix.
    pub open spec fn dims_ok(self) -> bool {
        &&& 1 <= self.n
        &&& self.a@.len() == self.n * self.n
        &&& self.b@.len() == self.n * self.n
        &&& self.c@.len() == self.n * self.n
    }

    pub open spec fn fully_assigned(self) -> bool {
        &&& forall|t: int| 0 <= t < self.a@.len() ==> (#[trigger] self.a@[t]).is_assigned()
        &&& forall|t: int| 0 <= t < self.b@.len() ==> (#[trigger] self.b@[t]).is_assigned()
        &&& forall|t: int| 0 <= t < self.c@.len() ==> (#[trigger] self.c@[t]).is_assigned()
    }

    /// Machine bound under which every product and sum the circuit forms
    /// is computed exactly: assigned entries of `A` and `B` stay within
    /// [`ENTRY_BOUND`] in magnitude.
    pub open spec fn entries_bounded(self) -> bool {
        &&& forall|t: int|
            0 <= t < self.a@.len() ==> abs_val((#[trigger] self.a@[t]).value()) <= ENTRY_BOUND as int
        &&& forall|t: int|
            0 <= t < self.b@.len() ==> abs_val((#[trigger] self.b@[t]).value()) <= ENTRY_BOUND as int
    }
}

/// The row/row dot product of row `i` of `a` with row `j` of `b`, over the
/// first `len` columns.
pub open spec fn row_dot(a: Seq<Entry>, b: Seq<Entry>, n: int, i: int, j: int, len: int) -> int
    decreases len,
{
    if len <= 0 {
        0
    } else {
        row_dot(a, b, n, i, j, len - 1) + a[i * n + (len - 1)].value() * b[j * n + (len - 1)].value()
    }
}

/// The relation the circuit enforces: every output entry is the dot
/// product of row `i` of `A` with row `j` of `B` (row/row, deliberately
/// not the conventional matrix product).
pub open spec fn mm_relation(n: int, a: Seq<Entry>, b: Seq<Entry>, c: Seq<Entry>) -> bool {
    forall|i: int, j: int|
        0 <= i < n && 0 <= j < n ==> c[i * n + j].value() == #[trigger] row_dot(a, b, n, i, j, n)
}

/// Constraint `t < n^3`: `A[i*n+k] * B[j*n+k] = mult[t]` for the decoded
/// triple `(i, j, k)`.
pub open spec fn mult_con_shape(n: int, t: int, con: Constraint) -> bool {
    let i = decode_i(n, t);
    let j = decode_j(n, t);
    let k = decode_k(n, t);
    &&& con.left@.len() == 1
    &&& con.left@[0] as int == var_a(n, i * n + k)
    &&& con.right@.len() == 1
    &&& con.right@[0] as int == var_b(n, j * n + k)
    &&& con.output@.len() == 1
    &&& con.output@[0] as int == var_m(n, t)
}

/// Constraint `t` in `[n^3, n^3 + n^2)`: `(sum_k mult[i,j,k]) * 1 = C[s]`
/// for `s = t - n^3`, `i = s / n`, `j = s % n`.
pub open spec fn sum_con_shape(n: int, t: int, con: Constraint) -> bool {
    let s = t - n * n * n;
    let i = s / n;
    let j = s % n;
    &&& con.left@.len() == n
    &&& forall|k: int|
        0 <= k < n ==> (#[trigger] con.left@[k]) as int == var_m(n, encode_spec(n, i, j, k))
    &&& con.right@.len() == 1
    &&& con.right@[0] as int == var_one()
    &&& con.output@.len() == 1
    &&& con.output@[0] as int == var_c(n, s)
}

/// The witness-independent layout of the generated system: counts and the
/// exact shape of every constraint.
pub open spec fn mm_shape(n: int, sys: R1cs) -> bool {
    &&& sys.num_public == 1
    &&& sys.vars@.len() == num_vars_spec(n)
    &&& sys.constraints@.len() == num_constraints_spec(n)
    &&& forall|t: int| 0 <= t < n * n * n ==> mult_con_shape(n, t, #[trigger] sys.constraints@[t])
    &&& forall|t: int|
        n * n * n <= t < n * n * n + n * n ==> sum_con_shape(n, t, #[trigger] sys.constraints@[t])
}

/// The product variable for `t` is assigned exactly when both factors are,
/// and then carries their product.
pub open spec fn mult_entry_ok(cir: Circuit, t: int, e: Entry) -> bool {
    let n = cir.n as int;
    let i = decode_i(n, t);
    let j = decode_j(n, t);
    let k = decode_k(n, t);
    if cir.a@[i * n + k].is_assigned() && cir.b@[j * n + k].is_assigned() {
        e.is_assigned() && e.value() == cir.a@[i * n + k].value() * cir.b@[j * n + k].value()
    } else {
        !e.is_assigned()
    }
}

/// How the generated variable slots relate to the circuit: the public one
/// fixed to one, the `A`/`B`/`C` blocks copied entry for entry, and every
/// product variable per [`mult_entry_ok`].
pub open spec fn mm_values(cir: Circuit, sys: R1cs) -> bool {
    let n = cir.n as int;
    &&& sys.vars@[var_one()] == Entry::Assigned(1i64)
    &&& forall|t: int| 0 <= t < n * n ==> sys.vars@[var_a(n, t)] == (#[trigger] cir.a@[t])
    &&& forall|t: int| 0 <= t < n * n ==> sys.vars@[var_b(n, t)] == (#[trigger] cir.b@[t])
    &&& forall|t: int| 0 <= t < n * n ==> sys.vars@[var_c(n, t)] == (#[trigger] cir.c@[t])
    &&& forall|t: int|
        0 <= t < n * n * n ==> mult_entry_ok(cir, t, #[trigger] mult_entry_at(sys.vars@, n, t))
}

/// When synthesis succeeds: the dimensions are right, and a pass that
/// demands assignments has them all.
pub open spec fn synth_ok_conditions(cir: Circuit, mode: Mode) -> bool {
    cir.dims_ok() && (mode is NeedsAssignment ==> cir.fully_assigned())
}

/// A correctly sized circuit with every entry absent: the shape-only
/// instance handed to the backend's indexing step.
pub fn shape(n: usize) -> (cir: Circuit)
    requires
        1 <= n,
        n <= MAX_N,
    ensures
        cir.n == n,
        cir.dims_ok(),
        cir.entries_bounded(),
        forall|t: int| 0 <= t < n * n ==> (#[trigger] cir.a@[t]) == Entry::Unassigned,
        forall|t: int| 0 <= t < n * n ==> (#[trigger] cir.b@[t]) == Entry::Unassigned,
        forall|t: int| 0 <= t < n * n ==> (#[trigger] cir.c@[t]) == Entry::Unassigned,
{
    proof {
        assert(n * n <= 512 * 512) by (nonlinear_arith)
            requires n <= 512;
    }
    let nn = n * n;
    let a = unassigned_row(nn);
    let b = unassigned_row(nn);
    let c = unassigned_row(nn);
    Circuit { n, a, b, c }
}

#[verifier::loop_isolation(false)]
fn unassigned_row(len: usize) -> (v: Vec<Entry>)
    ensures
        v@.len() == len,
        forall|t: int| 0 <= t < len ==> (#[trigger] v@[t]) == Entry::Unassigned,
{
    let mut v: Vec<Entry> = Vec::new();
    let mut t: usize = 0;
    while t < len
        invariant
            t <= len,
            v@.len() == t,
            forall|u: int| 0 <= u < t ==> (#[trigger] v@[u]) == Entry::Unassigned,
        decreases len - t,
    {
        v.push(Entry::Unassigned);
        t = t + 1;
    }
    v
}

/// Whether every slot of a row carries an assignment.
#[verifier::loop_isolation(false)]
pub fn all_assigned_row(v: &Vec<Entry>) -> (r: bool)
    ensures
        r == (forall|t: int| 0 <= t < v@.len() ==> (#[trigger] v@[t]).is_assigned()),
{
    let mut t: usize = 0;
    while t < v.len()
        invariant
            t <= v@.len(),
            forall|u: int| 0 <= u < t ==> (#[trigger] v@[u]).is_assigned(),
        decreases v@.len() - t,
    {
        match v[t] {
            Entry::Unassigned => {
                return false;
            },
            Entry::Assigned(_) => {},
        }
        t = t + 1;
    }
    true
}

/// Compiles the circuit into its constraint system.
///
/// On success the result's layout is exactly [`mm_shape`] and its
/// assignment exactly [`mm_values`]; dimension violations and (on the
/// proving path) absent witnesses are reported as errors, never panics.
#[verifier::loop_isolation(false)]
pub fn synthesize(cir: &Circuit, mode: Mode) -> (r: Result<R1cs, Failure>)
    requires
        cir.n <= MAX_N,
        cir.entries_bounded(),
    ensures
        match r {
            Ok(sys) => {
                &&& synth_ok_conditions(*cir, mode)
                &&& mm_shape(cir.n as int, sys)
                &&& mm_values(*cir, sys)
                &&& sys.wf()
                &&& sys.eval_safe()
                &&& (cir.fully_assigned() ==> sys.all_assigned())
            },
            Err(e) => {
                &&& !synth_ok_conditions(*cir, mode)
                &&& (e == Failure::DimensionMismatch <==> !cir.dims_ok())
                &&& (e == Failure::MissingWitness <==> cir.dims_ok() && mode is NeedsAssignment
                    && !cir.fully_assigned())
                &&& (e == Failure::DimensionMismatch || e == Failure::MissingWitness)
            },
        },
{
    let n = cir.n;
    if n < 1 {
        return Err(Failure::DimensionMismatch);
    }
    proof {
        assert(n * n <= 512 * 512 && n * n * n <= 512 * 512 * 512 && n * n <= n * n * n
            && 0 <= n * n) by (nonlinear_arith)
            requires
                1 <= n,
                n <= 512;
    }
    let nn = n * n;
    let nnn = nn * n;
    if cir.a.len() != nn || cir.b.len() != nn || cir.c.len() != nn {
        return Err(Failure::DimensionMismatch);
    }
    if mode == Mode::NeedsAssignment {
        if !(all_assigned_row(&cir.a) && all_assigned_row(&cir.b) && all_assigned_row(&cir.c)) {
            return Err(Failure::MissingWitness);
        }
    }

    let mut vars: Vec<Entry> = Vec::new();
    vars.push(Entry::Assigned(1));
    let mut t: usize = 0;
    while t < nn
        invariant
            t <= nn,
            nn == n * n,
            cir.a@.len() == nn,
            vars@.len() == 1 + t,
            vars@[0] == Entry::Assigned(1i64),
            forall|u: int| 0 <= u < t ==> vars@[1 + u] == (#[trigger] cir.a@[u]),
        decreases nn - t,
    {
        vars.push(cir.a[t]);
        t = t + 1;
    }
    let mut t: usize = 0;
    while t < nn
        invariant
            t <= nn,
            nn == n * n,
            cir.a@.len() == nn,
            cir.b@.len() == nn,
            vars@.len() == 1 + nn + t,
            vars@[0] == Entry::Assigned(1i64),
            forall|u: int| 0 <= u < nn ==> vars@[1 + u] == (#[trigger] cir.a@[u]),
            forall|u: int| 0 <= u < t ==> vars@[1 + nn + u] == (#[trigger] cir.b@[u]),
        decreases nn - t,
    {
        vars.push(cir.b[t]);
        t = t + 1;
    }
    let mut t: usize = 0;
    while t < nn
        invariant
            t <= nn,
            nn == n * n,
            cir.a@.len() == nn,
            cir.b@.len() == nn,
            cir.c@.len() == nn,
            vars@.len() == 1 + 2 * nn + t,
            vars@[0] == Entry::Assigned(1i64),
            forall|u: int| 0 <= u < nn ==> vars@[1 + u] == (#[trigger] cir.a@[u]),
            forall|u: int| 0 <= u < nn ==> vars@[1 + nn + u] == (#[trigger] cir.b@[u]),
            forall|u: int| 0 <= u < t ==> vars@[1 + 2 * nn + u] == (#[trigger] cir.c@[u]),
        decreases nn - t,
    {
        vars.push(cir.c[t]);
        t = t + 1;
    }
    let mut t: usize = 0;
    while t < nnn
        invariant
            t <= nnn,
            nn == n * n,
            nnn == n * n * n,
            1 <= n,
            n <= MAX_N,
            cir.entries_bounded(),
            cir.a@.len() == nn,
            cir.b@.len() == nn,
            cir.c@.len() == nn,
            vars@.len() == 1 + 3 * nn + t,
            vars@[0] == Entry::Assigned(1i64),
            forall|u: int| 0 <= u < nn ==> vars@[1 + u] == (#[trigger] cir.a@[u]),
            forall|u: int| 0 <= u < nn ==> vars@[1 + nn + u] == (#[trigger] cir.b@[u]),
            forall|u: int| 0 <= u < nn ==> vars@[1 + 2 * nn + u] == (#[trigger] cir.c@[u]),
            forall|u: int|
                0 <= u < t ==> mult_entry_ok(
                    *cir,
                    u,
                    #[trigger] mult_entry_at(vars@, n as int, u),
                ),
        decreases nnn - t,
    {
        let (i, j, k) = decode(n, t);
        proof {
            assert(i * n + k < n * n && j * n + k < n * n && 0 <= i * n + k && 0 <= j * n + k)
                by (nonlinear_arith)
                requires 0 <= i < n, 0 <= j < n, 0 <= k < n;
            assert(abs_val(cir.a@[i * n + k as int].value()) <= ENTRY_BOUND as int);
            assert(abs_val(cir.b@[j * n + k as int].value()) <= ENTRY_BOUND as int);
        }
        let ae = cir.a[i * n + k];
        let be = cir.b[j * n + k];
        let me = match (ae, be) {
            (Entry::Assigned(x), Entry::Assigned(y)) => {
                proof {
                    assert(-(1048576i64 * 1048576) <= x * y && x * y <= 1048576i64 * 1048576)
                        by (nonlinear_arith)
                        requires -1048576 <= x <= 1048576, -1048576 <= y <= 1048576;
                }
                Entry::Assigned(x * y)
            },
            _ => Entry::Unassigned,
        };
        let ghost prev = vars@;
        vars.push(me);
        proof {
            assert(mult_entry_at(vars@, n as int, t as int) == me);
            assert(mult_entry_ok(*cir, t as int, me));
            assert forall|u: int|
                0 <= u < t + 1 implies mult_entry_ok(
                *cir,
                u,
                #[trigger] mult_entry_at(vars@, n as int, u),
            ) by {
                if u < t {
                    assert(mult_entry_ok(*cir, u, mult_entry_at(prev, n as int, u)));
                    assert(mult_entry_at(vars@, n as int, u) == mult_entry_at(
                        prev,
                        n as int,
                        u,
                    ));
                }
            }
        }
        t = t + 1;
    }

    let mut cons: Vec<Constraint> = Vec::new();
    let mut t: usize = 0;
    while t < nnn
        invariant
            t <= nnn,
            nn == n * n,
            nnn == n * n * n,
            1 <= n,
            cons@.len() == t,
            forall|u: int| 0 <= u < t ==> mult_con_shape(n as int, u, #[trigger] cons@[u]),
        decreases nnn - t,
    {
        let (i, j, k) = decode(n, t);
        proof {
            assert(i * n + k < n * n && j * n + k < n * n) by (nonlinear_arith)
                requires 0 <= i < n, 0 <= j < n, 0 <= k < n;
        }
        let mut lv: Vec<usize> = Vec::new();
        lv.push(1 + (i * n + k));
        let mut rv: Vec<usize> = Vec::new();
        rv.push(1 + nn + (j * n + k));
        let mut ov: Vec<usize> = Vec::new();
        ov.push(1 + 3 * nn + t);
        cons.push(Constraint { left: lv, right: rv, output: ov });
        t = t + 1;
    }
    let mut s: usize = 0;
    while s < nn
        invariant
            s <= nn,
            nn == n * n,
            nnn == n * n * n,
            1 <= n,
            cons@.len() == nnn + s,
            forall|u: int| 0 <= u < nnn ==> mult_con_shape(n as int, u, #[trigger] cons@[u]),
            forall|u: int|
                nnn <= u < nnn + s ==> sum_con_shape(n as int, u, #[trigger] cons@[u]),
        decreases nn - s,
    {
        proof {
            lemma_mod_bound(s as int, n as int);
            lemma_div_is_ordered(s as int, n * n - 1, n as int);
            assert((n * n - 1) / (n as int) == n - 1) by (nonlinear_arith)
                requires 1 <= n;
            lemma_div_is_ordered(0, s as int, n as int);
        }
        let i = s / n;
        let j = s % n;
        let mut lv: Vec<usize> = Vec::new();
        let mut k: usize = 0;
        while k < n
            invariant
                k <= n,
                nn == n * n,
                nnn == n * n * n,
                1 <= n,
                i == s as int / n as int,
                j == s as int % n as int,
                i < n,
                j < n,
                lv@.len() == k,
                forall|u: int|
                    0 <= u < k ==> (#[trigger] lv@[u]) as int == var_m(
                        n as int,
                        encode_spec(n as int, i as int, j as int, u),
                    ),
            decreases n - k,
        {
            let e = encode(n, i, j, k);
            lv.push(1 + 3 * nn + e);
            k = k + 1;
        }
        let mut rv: Vec<usize> = Vec::new();
        rv.push(0);
        let mut ov: Vec<usize> = Vec::new();
        ov.push(1 + 2 * nn + s);
        cons.push(Constraint { left: lv, right: rv, output: ov });
        proof {
            assert(sum_con_shape(n as int, nnn + s, cons@[nnn + s as int]));
        }
        s = s + 1;
    }

    let sys = R1cs { num_public: 1, vars, constraints: cons };
    proof {
        assert(mm_shape(cir.n as int, sys));
        assert(mm_values(*cir, sys));
        lemma_shape_wf(*cir, sys);
        lemma_shape_eval_safe(*cir, sys);
        if cir.fully_assigned() {
            lemma_values_all_assigned(*cir, sys);
        }
    }
    Ok(sys)
}

/// A generated layout references only allocated variables: the system is
/// well-formed.
pub proof fn lemma_shape_wf(cir: Circuit, sys: R1cs)
    requires
        cir.dims_ok(),
        mm_shape(cir.n as int, sys),
        mm_values(cir, sys),
    ensures
        sys.wf(),
{
    let n = cir.n as int;
    assert(0 <= n * n && n * n <= n * n * n) by (nonlinear_arith)
        requires 1 <= n;
    assert forall|t: int|
        0 <= t < sys.constraints@.len() implies (#[trigger] sys.constraints@[t]).wf(
        sys.vars@.len() as int,
    ) by {
        let nv = sys.vars@.len() as int;
        if t < n * n * n {
            assert(mult_con_shape(n, t, sys.constraints@[t]));
            lemma_decode_encode_round_trip(n, t);
            let i = decode_i(n, t);
            let j = decode_j(n, t);
            let k = decode_k(n, t);
            assert(0 <= i * n + k && i * n + k < n * n && 0 <= j * n + k && j * n + k < n * n)
                by (nonlinear_arith)
                requires 0 <= i < n, 0 <= j < n, 0 <= k < n;
        } else {
            assert(sum_con_shape(n, t, sys.constraints@[t]));
            let s = t - n * n * n;
            let i = s / n;
            let j = s % n;
            lemma_mod_bound(s, n);
            lemma_div_is_ordered(0, s, n);
            lemma_div_is_ordered(s, n * n - 1, n);
            assert((n * n - 1) / n == n - 1) by (nonlinear_arith)
                requires 1 <= n;
            let con = sys.constraints@[t];
            assert forall|u: int| 0 <= u < con.left@.len() implies (#[trigger] con.left@[u])
                < nv by {
                lemma_encode_in_range(n, i, j, u);
            }
        }
    }
}

/// Every linear combination of a generated system evaluates within the
/// exact range of the executable checker.
pub proof fn lemma_shape_eval_safe(cir: Circuit, sys: R1cs)
    requires
        cir.n <= MAX_N,
        cir.dims_ok(),
        cir.entries_bounded(),
        mm_shape(cir.n as int, sys),
        mm_values(cir, sys),
    ensures
        sys.eval_safe(),
{
    let n = cir.n as int;
    let vals = sys.values();
    assert(0 <= n * n && n * n <= n * n * n) by (nonlinear_arith)
        requires 1 <= n;
    assert forall|t: int|
        0 <= t < sys.constraints@.len() implies (#[trigger] sys.constraints@[t]).eval_safe(
        vals,
    ) by {
        let con = sys.constraints@[t];
        assert forall|x: int| 0 <= x < sys.vars@.len() implies abs_val(vals[x])
            <= EVAL_LIMIT as int by {
            assert(vals[x] == sys.vars@[x].value());
        }
        if t < n * n * n {
            assert(mult_con_shape(n, t, con));
            crate::r1cs::lemma_lc_abs_singleton(con.left@, vals);
            crate::r1cs::lemma_lc_abs_singleton(con.right@, vals);
            crate::r1cs::lemma_lc_abs_singleton(con.output@, vals);
            lemma_decode_encode_round_trip(n, t);
            let i = decode_i(n, t);
            let j = decode_j(n, t);
            let k = decode_k(n, t);
            assert(0 <= i * n + k && i * n + k < n * n && 0 <= j * n + k && j * n + k < n * n)
                by (nonlinear_arith)
                requires 0 <= i < n, 0 <= j < n, 0 <= k < n;
            assert(abs_val(vals[con.left@[0] as int]) <= EVAL_LIMIT as int);
            assert(abs_val(vals[con.right@[0] as int]) <= EVAL_LIMIT as int);
            assert(abs_val(vals[con.output@[0] as int]) <= EVAL_LIMIT as int);
        } else {
            assert(sum_con_shape(n, t, con));
            let s = t - n * n * n;
            let i = s / n;
            let j = s % n;
            lemma_mod_bound(s, n);
            lemma_div_is_ordered(0, s, n);
            lemma_div_is_ordered(s, n * n - 1, n);
            assert((n * n - 1) / n == n - 1) by (nonlinear_arith)
                requires 1 <= n;
            let cap = (ENTRY_BOUND as int) * (ENTRY_BOUND as int);
            assert forall|u: int| 0 <= u < con.left@.len() implies abs_val(
                vals[(#[trigger] con.left@[u]) as int],
            ) <= cap by {
                lemma_encode_in_range(n, i, j, u);
                lemma_encode_decode_round_trip(n, i, j, u);
                let p = encode_spec(n, i, j, u);
                assert(mult_entry_ok(cir, p, mult_entry_at(sys.vars@, n, p)));
                assert(0 <= i * n + u && i * n + u < n * n && 0 <= j * n + u && j * n + u < n * n)
                    by (nonlinear_arith)
                    requires 0 <= i < n, 0 <= j < n, 0 <= u < n;
                let ea = cir.a@[i * n + u];
                let eb = cir.b@[j * n + u];
                assert(abs_val(ea.value()) <= ENTRY_BOUND as int);
                assert(abs_val(eb.value()) <= ENTRY_BOUND as int);
                assert(abs_val(ea.value() * eb.value()) <= cap) by (nonlinear_arith)
                    requires
                        abs_val(ea.value()) <= ENTRY_BOUND as int,
                        abs_val(eb.value()) <= ENTRY_BOUND as int,
                        cap == (ENTRY_BOUND as int) * (ENTRY_BOUND as int);
                assert(vals[con.left@[u] as int] == sys.vars@[con.left@[u] as int].value());
            }
            assert(cap == 1048576 * 1048576);
            crate::r1cs::lemma_lc_abs_bounded_terms(con.left@, vals, cap);
            assert(con.left@.len() * cap <= EVAL_LIMIT as int) by (nonlinear_arith)
                requires
                    con.left@.len() <= 512,
                    cap == 1048576 * 1048576,
                    EVAL_LIMIT == 9223372036854775808i128;
            crate::r1cs::lemma_lc_abs_singleton(con.right@, vals);
            crate::r1cs::lemma_lc_abs_singleton(con.output@, vals);
        }
    }
}

/// With a fully assigned circuit, every generated variable slot carries an
/// assignment.
pub proof fn lemma_values_all_assigned(cir: Circuit, sys: R1cs)
    requires
        cir.dims_ok(),
        cir.fully_assigned(),
        mm_shape(cir.n as int, sys),
        mm_values(cir, sys),
    ensures
        sys.all_assigned(),
{
    let n = cir.n as int;
    assert(0 <= n * n && n * n <= n * n * n) by (nonlinear_arith)
        requires 1 <= n;
    assert forall|v: int| 0 <= v < sys.vars@.len() implies (#[trigger] sys.vars@[v]).is_assigned()
        by {
        if v == 0 {
        } else if v < 1 + n * n {
            let t = v - 1;
            assert(sys.vars@[var_a(n, t)] == cir.a@[t]);
            assert(cir.a@[t].is_assigned());
        } else if v < 1 + 2 * (n * n) {
            let t = v - (1 + n * n);
            assert(sys.vars@[var_b(n, t)] == cir.b@[t]);
            assert(cir.b@[t].is_assigned());
        } else if v < 1 + 3 * (n * n) {
            let t = v - (1 + 2 * (n * n));
            assert(sys.vars@[var_c(n, t)] == cir.c@[t]);
            assert(cir.c@[t].is_assigned());
        } else {
            let t = v - (1 + 3 * (n * n));
            assert(mult_entry_ok(cir, t, mult_entry_at(sys.vars@, n, t)));
            lemma_decode_encode_round_trip(n, t);
            let i = decode_i(n, t);
            let j = decode_j(n, t);
            let k = decode_k(n, t);
            assert(0 <= i * n + k && i * n + k < n * n && 0 <= j * n + k && j * n + k < n * n)
                by (nonlinear_arith)
                requires 0 <= i < n, 0 <= j < n, 0 <= k < n;
            assert(cir.a@[i * n + k].is_assigned());
            assert(cir.b@[j * n + k].is_assigned());
        }
    }
}

} // verus!
