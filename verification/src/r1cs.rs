//! The constraint-system data model: write-once variable slots, rank-1
//! constraints as triples of linear combinations, and exact satisfaction
//! semantics over mathematical integers, together with an executable
//! satisfaction checker.

use vstd::prelude::*;

verus! {

/// A write-once variable slot: still unassigned (shape-only synthesis) or
/// assigned an integer standing for a field element.
#[derive(Clone, Copy, PartialEq, Eq, Structural, Debug)]
pub enum Entry {
    Unassigned,
    Assigned(i64),
}

impl Entry {
    pub open spec fn is_assigned(self) -> bool {
        self is Assigned
    }

    /// The integer behind an assigned entry; an unassigned entry reads as zero.
    pub open spec fn value(self) -> int {
        match self {
            Entry::Assigned(v) => v as int,
            Entry::Unassigned => 0,
        }
    }
}

/// The values of a row of variable slots, as mathematical integers.
pub open spec fn entry_values(s: Seq<Entry>) -> Seq<int> {
    s.map(|t: int, e: Entry| e.value())
}

/// One rank-1 constraint `L * R = O`. Each linear combination is the plain
/// sum of the listed variables: every coefficient in this circuit is one.
#[derive(Clone, PartialEq, Eq, Debug)]
pub struct Constraint {
    pub left: Vec<usize>,
    pub right: Vec<usize>,
    pub output: Vec<usize>,
}

/// The value of a linear combination: the sum of the listed variables.
pub open spec fn lc_eval(lc: Seq<usize>, vals: Seq<int>) -> int
    decreases lc.len(),
{
    if lc.len() == 0 {
        0
    } else {
        lc_eval(lc.drop_last(), vals) + vals[lc.last() as int]
    }
}

pub open spec fn abs_val(x: int) -> int {
    if x < 0 { -x } else { x }
}

/// The sum of the magnitudes of the listed variables' values; every partial
/// sum the evaluator forms stays within it.
pub open spec fn lc_abs(lc: Seq<usize>, vals: Seq<int>) -> int
    decreases lc.len(),
{
    if lc.len() == 0 {
        0
    } else {
        lc_abs(lc.drop_last(), vals) + abs_val(vals[lc.last() as int])
    }
}

/// Every listed variable exists.
pub open spec fn lc_in_bounds(lc: Seq<usize>, num_vars: int) -> bool {
    forall|t: int| 0 <= t < lc.len() ==> (#[trigger] lc[t]) < num_vars
}

/// Magnitude cap on a linear combination's value under which the evaluator
/// is exact: products of two such values still fit the working integer type.
pub const EVAL_LIMIT: i128 = 9223372036854775808;

impl Constraint {
    pub open spec fn wf(self, num_vars: int) -> bool {
        &&& lc_in_bounds(self.left@, num_vars)
        &&& lc_in_bounds(self.right@, num_vars)
        &&& lc_in_bounds(self.output@, num_vars)
    }

    /// Does `L * R = O` hold under the given variable values?
    pub open spec fn holds(self, vals: Seq<int>) -> bool {
        lc_eval(self.left@, vals) * lc_eval(self.right@, vals) == lc_eval(self.output@, vals)
    }

    /// Number of linear-combination terms: the constraint's non-zero
    /// entries across the three constraint matrices.
    pub open spec fn terms(self) -> int {
        self.left@.len() + self.right@.len() + self.output@.len() as int
    }

    pub open spec fn eval_safe(self, vals: Seq<int>) -> bool {
        &&& lc_abs(self.left@, vals) <= EVAL_LIMIT
        &&& lc_abs(self.right@, vals) <= EVAL_LIMIT
        &&& lc_abs(self.output@, vals) <= EVAL_LIMIT
    }
}

/// Total linear-combination terms across a row of constraints.
pub open spec fn seq_total_terms(cs: Seq<Constraint>) -> int
    decreases cs.len(),
{
    if cs.len() == 0 {
        0
    } else {
        seq_total_terms(cs.drop_last()) + cs.last().terms()
    }
}

/// A constraint system: the variables in allocation order (the single
/// public variable first, fixed to one) and the constraints in
/// registration order.
#[derive(Clone, PartialEq, Eq, Debug)]
pub struct R1cs {
    /// Number of public variables at the front of `vars`; always one here.
    pub num_public: usize,
    /// Every allocated variable, in allocation order.
    pub vars: Vec<Entry>,
    /// Every registered constraint, in registration order.
    pub constraints: Vec<Constraint>,
}

impl R1cs {
    pub open spec fn wf(self) -> bool {
        &&& self.num_public == 1
        &&& self.vars@.len() >= 1
        &&& self.vars@[0] == Entry::Assigned(1)
        &&& forall|t: int|
            0 <= t < self.constraints@.len() ==> (#[trigger] self.constraints@[t]).wf(
                self.vars@.len() as int,
            )
    }

    pub open spec fn all_assigned(self) -> bool {
        forall|t: int| 0 <= t < self.vars@.len() ==> (#[trigger] self.vars@[t]).is_assigned()
    }

    /// The assignment carried by the variable slots, as integers.
    pub open spec fn values(self) -> Seq<int> {
        entry_values(self.vars@)
    }

    /// Every registered constraint holds under the given assignment.
    pub open spec fn satisfied_by(self, vals: Seq<int>) -> bool {
        forall|t: int|
            0 <= t < self.constraints@.len() ==> (#[trigger] self.constraints@[t]).holds(vals)
    }

    /// Every registered constraint holds under the carried assignment.
    pub open spec fn satisfied(self) -> bool {
        self.satisfied_by(self.values())
    }

    pub open spec fn eval_safe(self) -> bool {
        forall|t: int|
            0 <= t < self.constraints@.len() ==> (#[trigger] self.constraints@[t]).eval_safe(
                self.values(),
            )
    }

    /// Non-zero entries across all constraint matrices together.
    pub open spec fn total_terms(self) -> int {
        seq_total_terms(self.constraints@)
    }
}

/// Extending a prefix never shrinks the magnitude sum.
proof fn lemma_lc_abs_take_le(lc: Seq<usize>, vals: Seq<int>, l: int)
    requires
        0 <= l <= lc.len(),
    ensures
        lc_abs(lc.take(l), vals) <= lc_abs(lc, vals),
    decreases lc.len() - l,
{
    if l == lc.len() {
        assert(lc.take(l) =~= lc);
    } else {
        lemma_lc_abs_take_le(lc, vals, l + 1);
        assert(lc.take(l + 1).drop_last() =~= lc.take(l));
        assert(lc.take(l + 1).last() == lc[l]);
        assert(0 <= abs_val(vals[lc[l] as int]));
        assert(lc_abs(lc.take(l), vals) <= lc_abs(lc.take(l + 1), vals));
    }
}

/// A one-term linear combination evaluates to that variable's value.
pub proof fn lemma_lc_eval_singleton(lc: Seq<usize>, vals: Seq<int>)
    requires
        lc.len() == 1,
    ensures
        lc_eval(lc, vals) == vals[lc[0] as int],
{
    assert(lc.drop_last().len() == 0);
    assert(lc_eval(lc.drop_last(), vals) == 0);
    assert(lc.last() == lc[0]);
}

/// A one-term linear combination's magnitude sum is that term's magnitude.
pub proof fn lemma_lc_abs_singleton(lc: Seq<usize>, vals: Seq<int>)
    requires
        lc.len() == 1,
    ensures
        lc_abs(lc, vals) == abs_val(vals[lc[0] as int]),
{
    assert(lc.drop_last().len() == 0);
    assert(lc_abs(lc.drop_last(), vals) == 0);
    assert(lc.last() == lc[0]);
}

/// A term-wise magnitude cap bounds the whole magnitude sum linearly.
pub proof fn lemma_lc_abs_bounded_terms(lc: Seq<usize>, vals: Seq<int>, cap: int)
    requires
        0 <= cap,
        forall|u: int| 0 <= u < lc.len() ==> abs_val(vals[(#[trigger] lc[u]) as int]) <= cap,
    ensures
        lc_abs(lc, vals) <= lc.len() * cap,
    decreases lc.len(),
{
    if lc.len() == 0 {
        assert(lc.len() * cap == 0) by (nonlinear_arith)
            requires lc.len() == 0;
    } else {
        lemma_lc_abs_bounded_terms(lc.drop_last(), vals, cap);
        assert(abs_val(vals[lc.last() as int]) <= cap);
        assert((lc.len() - 1) * cap + cap == lc.len() * cap) by (nonlinear_arith);
    }
}

/// Evaluates a linear combination over fully assigned variables, exactly.
fn eval_lc(lc: &Vec<usize>, vars: &Vec<Entry>) -> (v: i128)
    requires
        lc_in_bounds(lc@, vars@.len() as int),
        forall|t: int| 0 <= t < vars@.len() ==> (#[trigger] vars@[t]).is_assigned(),
        lc_abs(lc@, entry_values(vars@)) <= EVAL_LIMIT,
    ensures
        v == lc_eval(lc@, entry_values(vars@)),
        abs_val(v as int) <= lc_abs(lc@, entry_values(vars@)),
{
    let ghost vals = entry_values(vars@);
    let mut acc: i128 = 0;
    let mut t: usize = 0;
    proof {
        assert(lc@.take(0) =~= Seq::<usize>::empty());
    }
    while t < lc.len()
        invariant
            t <= lc@.len(),
            lc_in_bounds(lc@, vars@.len() as int),
            forall|u: int| 0 <= u < vars@.len() ==> (#[trigger] vars@[u]).is_assigned(),
            lc_abs(lc@, vals) <= EVAL_LIMIT,
            vals == entry_values(vars@),
            acc == lc_eval(lc@.take(t as int), vals),
            abs_val(acc as int) <= lc_abs(lc@.take(t as int), vals),
        decreases lc@.len() - t,
    {
        let idx = lc[t];
        let e = vars[idx];
        let x: i64 = match e {
            Entry::Assigned(v) => v,
            Entry::Unassigned => 0,
        };
        proof {
            assert(vals[idx as int] == vars@[idx as int].value());
            assert(lc@.take(t + 1).drop_last() =~= lc@.take(t as int));
            assert(lc@.take(t + 1).last() == lc@[t as int]);
            lemma_lc_abs_take_le(lc@, vals, t + 1);
        }
        acc = acc + x as i128;
        t = t + 1;
    }
    proof {
        assert(lc@.take(lc@.len() as int) =~= lc@);
    }
    acc
}

proof fn lemma_mul_within(l: int, r: int, cap: int)
    by (nonlinear_arith)
    requires
        0 <= cap,
        abs_val(l) <= cap,
        abs_val(r) <= cap,
    ensures
        abs_val(l * r) <= cap * cap,
{
}

/// Decides whether the carried assignment satisfies every constraint.
pub fn check_satisfied(sys: &R1cs) -> (ok: bool)
    requires
        sys.wf(),
        sys.all_assigned(),
        sys.eval_safe(),
    ensures
        ok == sys.satisfied(),
{
    let mut t: usize = 0;
    while t < sys.constraints.len()
        invariant
            t <= sys.constraints@.len(),
            sys.wf(),
            sys.all_assigned(),
            sys.eval_safe(),
            forall|u: int|
                0 <= u < t ==> (#[trigger] sys.constraints@[u]).holds(sys.values()),
        decreases sys.constraints@.len() - t,
    {
        let con = &sys.constraints[t];
        let l = eval_lc(&con.left, &sys.vars);
        let r = eval_lc(&con.right, &sys.vars);
        let o = eval_lc(&con.output, &sys.vars);
        proof {
            lemma_mul_within(l as int, r as int, EVAL_LIMIT as int);
        }
        if l * r != o {
            return false;
        }
        t = t + 1;
    }
    true
}

} // verus!
