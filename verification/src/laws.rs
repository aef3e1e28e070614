//! Laws of the sequence-form construction.
//!
//! These are proved facts about any variable assignment that satisfies
//! one of the emitted programs, stated over the spec-level rational
//! arithmetic.  The numeric backend is outside the library, so each law
//! is conditioned on the assignment actually satisfying the program it
//! came from; the tests check the same facts numerically on solved
//! games.

use crate::lp::constraint_holds;
use crate::lp::eval_terms;
use crate::lp::satisfies;
use crate::lp::Constraint;
use crate::lp::LpProblem;
use crate::lp::Rel;
use crate::rat::q_add;
use crate::rat::q_div;
use crate::rat::q_eq;
use crate::rat::q_mul;
use crate::rat::q_neg;
use crate::rat::q_sum;
use crate::rat::Rat;
use vstd::prelude::*;

verus! {

/// The shape of a flow-conservation row: minus one times the parent
/// sequence variable plus one times each child sequence variable, pinned
/// to zero.
pub open spec fn is_flow_constraint(c: Constraint, parent: usize, kids: Seq<usize>) -> bool {
    &&& c.rel == Rel::Eq
    &&& c.rhs.v() == (0int, 1int)
    &&& c.terms@.len() == kids.len() + 1
    &&& c.terms@[0].1 == parent
    &&& c.terms@[0].0.v() == (-1int, 1int)
    &&& forall|j: int|
        0 <= j < kids.len() ==> (#[trigger] c.terms@[j + 1]).1 == kids[j] && c.terms@[j + 1].0.v()
            == (1int, 1int)
}

/// The spec values taken by a list of variables under an assignment.
pub open spec fn seq_values(vars: Seq<usize>, sol: Seq<Rat>) -> Seq<(int, int)> {
    vars.map_values(|v: usize| sol[v as int].v())
}

/// Every entry of the assignment is well-formed.
pub open spec fn assignment_wf(sol: Seq<Rat>) -> bool {
    forall|i: int| 0 <= i < sol.len() ==> (#[trigger] sol[i]).wf()
}

proof fn lemma_congr_expand_left(a0: int, a1: int, b1: int, c0: int, c1: int)
    ensures
        (a0 * c1 + c0 * a1) * (b1 * c1) == (a0 * b1) * (c1 * c1) + (c0 * b1) * (a1 * c1),
{
    vstd::arithmetic::mul::lemma_mul_is_distributive_add_other_way(b1 * c1, a0 * c1, c0 * a1);
    lemma_regroup_ints(a0, b1, c1, c1);
    lemma_regroup_ints(c0, b1, a1, c1);
}

proof fn lemma_congr_expand_right(b0: int, b1: int, a1: int, c0: int, c1: int)
    ensures
        (b0 * c1 + c0 * b1) * (a1 * c1) == (b0 * a1) * (c1 * c1) + (c0 * b1) * (a1 * c1),
{
    vstd::arithmetic::mul::lemma_mul_is_distributive_add_other_way(a1 * c1, b0 * c1, c0 * b1);
    lemma_regroup_ints(b0, a1, c1, c1);
    lemma_regroup_ints(c0, a1, b1, c1);
}

proof fn lemma_mul_eq_scale(u: int, v: int, w: int)
    by (nonlinear_arith)
    requires
        u == v,
    ensures
        u * w == v * w,
{
}

proof fn lemma_congr_ints(a0: int, a1: int, b0: int, b1: int, c0: int, c1: int)
    requires
        a0 * b1 == b0 * a1,
    ensures
        (a0 * c1 + c0 * a1) * (b1 * c1) == (b0 * c1 + c0 * b1) * (a1 * c1),
{
    lemma_congr_expand_left(a0, a1, b1, c0, c1);
    lemma_congr_expand_right(b0, b1, a1, c0, c1);
    lemma_mul_eq_scale(a0 * b1, b0 * a1, c1 * c1);
}

proof fn lemma_assoc_ints(a0: int, a1: int, b0: int, b1: int, c0: int, c1: int)
    by (nonlinear_arith)
    ensures
        (a0 * b1 + b0 * a1) * c1 + c0 * (a1 * b1) == a0 * (b1 * c1) + (b0 * c1 + c0 * b1) * a1,
        (a1 * b1) * c1 == a1 * (b1 * c1),
{
}

proof fn lemma_comm_ints(a0: int, a1: int, b0: int, b1: int)
    by (nonlinear_arith)
    ensures
        a0 * b1 + b0 * a1 == b0 * a1 + a0 * b1,
        a1 * b1 == b1 * a1,
{
}

#[verifier::rlimit(100)]
proof fn lemma_trans_ints(a0: int, a1: int, b0: int, b1: int, c0: int, c1: int)
    by (nonlinear_arith)
    requires
        a0 * b1 == b0 * a1,
        b0 * c1 == c0 * b1,
        b1 != 0,
    ensures
        a0 * c1 == c0 * a1,
{
}

proof fn lemma_div_core_ints(u: int, m: int, p0: int, p1: int)
    by (nonlinear_arith)
    ensures
        (u * p1) * (m * (p0 * p0)) == (u * (p1 * p0)) * (m * p0),
{
}

proof fn lemma_pair_swap_ints(a1: int, b1: int, p0: int)
    by (nonlinear_arith)
    ensures
        (a1 * p0) * (b1 * p0) == (a1 * b1) * (p0 * p0),
{
}

proof fn lemma_regroup_ints(a0: int, b1: int, p1: int, p0: int)
    by (nonlinear_arith)
    ensures
        (a0 * p1) * (b1 * p0) == (a0 * b1) * (p1 * p0),
{
}

proof fn lemma_factor_ints(x: int, y: int, t: int, z: int)
    by (nonlinear_arith)
    ensures
        (x * t + y * t) * z == ((x + y) * t) * z,
{
}

proof fn lemma_neg_mul(a: int, b: int)
    by (nonlinear_arith)
    ensures
        (-a) * b == -(a * b),
        a * (-b) == -(a * b),
{
}

proof fn lemma_product_nonzero(a: int, b: int)
    by (nonlinear_arith)
    requires
        a != 0,
        b != 0,
    ensures
        a * b != 0,
{
}

proof fn lemma_product_zero(a: int, b: int)
    by (nonlinear_arith)
    requires
        a * b == 0,
        b != 0,
    ensures
        a == 0,
{
}

pub(crate) proof fn lemma_den_product_pos(a: int, b: int)
    by (nonlinear_arith)
    requires
        a >= 1,
        b >= 1,
    ensures
        a * b >= 1,
{
}

/// Adding the same rational on the right respects cross-multiplication
/// equality.
pub(crate) proof fn lemma_q_add_congr(a: (int, int), b: (int, int), c: (int, int))
    requires
        q_eq(a, b),
    ensures
        q_eq(q_add(a, c), q_add(b, c)),
{
    lemma_congr_ints(a.0, a.1, b.0, b.1, c.0, c.1);
}

/// Rational addition of pairs is associative on the nose.
proof fn lemma_q_add_assoc(a: (int, int), b: (int, int), c: (int, int))
    ensures
        q_add(q_add(a, b), c) == q_add(a, q_add(b, c)),
{
    lemma_assoc_ints(a.0, a.1, b.0, b.1, c.0, c.1);
}

/// Rational addition of pairs is commutative on the nose.
pub(crate) proof fn lemma_q_add_comm(a: (int, int), b: (int, int))
    ensures
        q_add(a, b) == q_add(b, a),
{
    lemma_comm_ints(a.0, a.1, b.0, b.1);
}

/// Cross-multiplication equality is transitive through a pair with a
/// nonzero denominator.
pub(crate) proof fn lemma_q_eq_trans(a: (int, int), b: (int, int), c: (int, int))
    requires
        q_eq(a, b),
        q_eq(b, c),
        b.1 != 0,
    ensures
        q_eq(a, c),
{
    lemma_trans_ints(a.0, a.1, b.0, b.1, c.0, c.1);
}

/// Division distributes over addition, up to cross-multiplication
/// equality.
proof fn lemma_q_div_add(a: (int, int), b: (int, int), p: (int, int))
    ensures
        q_eq(q_div(q_add(a, b), p), q_add(q_div(a, p), q_div(b, p))),
{
    let u = a.0 * b.1 + b.0 * a.1;
    // left cross product, regrouped
    lemma_pair_swap_ints(a.1, b.1, p.0);
    lemma_div_core_ints(u, a.1 * b.1, p.0, p.1);
    // right cross product, regrouped the same way
    lemma_regroup_ints(a.0, b.1, p.1, p.0);
    lemma_regroup_ints(b.0, a.1, p.1, p.0);
    lemma_factor_ints(a.0 * b.1, b.0 * a.1, p.1 * p.0, (a.1 * b.1) * p.0);
    assert((u * p.1) * ((a.1 * p.0) * (b.1 * p.0)) == (u * (p.1 * p.0)) * ((a.1 * b.1) * p.0));
    assert(((a.0 * p.1) * (b.1 * p.0) + (b.0 * p.1) * (a.1 * p.0)) * ((a.1 * b.1) * p.0) == (u * (
    p.1 * p.0)) * ((a.1 * b.1) * p.0));
}

/// A sum of rationals with positive denominators has a positive
/// denominator.
proof fn lemma_q_sum_den_pos(s: Seq<(int, int)>)
    requires
        forall|i: int| 0 <= i < s.len() ==> (#[trigger] s[i]).1 >= 1,
    ensures
        q_sum(s).1 >= 1,
    decreases s.len(),
{
    if s.len() == 0 {
    } else {
        lemma_q_sum_den_pos(s.drop_last());
        lemma_den_product_pos(q_sum(s.drop_last()).1, s.last().1);
    }
}

/// Makes a few unrollings of the recursive sums available.
proof fn proof_fuel_evals()
{
    reveal_with_fuel(eval_terms, 3);
    reveal_with_fuel(q_sum, 3);
}

/// The base row of minus one times the parent evaluates to the negated
/// parent value.
proof fn lemma_flow_base(p: (int, int))
    by (nonlinear_arith)
    requires
        p.1 >= 1,
    ensures
        q_eq(q_add((0int, 1int), q_mul((-1int, 1int), p)), q_add(q_neg(p), (0int, 1int))),
        q_add((0int, 1int), q_mul((-1int, 1int), p)).1 >= 1,
{
}

/// The weighted sum of a flow-shaped row equals, up to
/// cross-multiplication equality, the children's total minus the parent.
#[verifier::rlimit(50)]
proof fn lemma_eval_flow(terms: Seq<(Rat, usize)>, sol: Seq<Rat>, parent: usize, kids: Seq<usize>)
    requires
        assignment_wf(sol),
        (parent as int) < sol.len(),
        forall|j: int| 0 <= j < kids.len() ==> (#[trigger] kids[j] as int) < sol.len(),
        terms.len() == kids.len() + 1,
        terms[0].1 == parent,
        terms[0].0.v() == (-1int, 1int),
        forall|j: int|
            0 <= j < kids.len() ==> (#[trigger] terms[j + 1]).1 == kids[j] && terms[j + 1].0.v()
                == (1int, 1int),
    ensures
        q_eq(
            eval_terms(terms, sol),
            q_add(q_neg(sol[parent as int].v()), q_sum(seq_values(kids, sol))),
        ),
        eval_terms(terms, sol).1 >= 1,
    decreases kids.len(),
{
    proof_fuel_evals();
    if kids.len() == 0 {
        let p = sol[parent as int].v();
        assert(sol[parent as int].wf());
        assert(terms.len() == 1);
        assert(eval_terms(terms.drop_last(), sol) == (0int, 1int));
        assert(terms.last() == terms[0]);
        assert((terms.last().1 as int) < sol.len());
        assert(sol[terms.last().1 as int].v() == p);
        assert(eval_terms(terms, sol) == q_add((0int, 1int), q_mul((-1int, 1int), p)));
        assert(seq_values(kids, sol).len() == 0);
        assert(q_sum(seq_values(kids, sol)) == (0int, 1int));
        lemma_flow_base(p);
        assert(q_eq(eval_terms(terms, sol), q_add(q_neg(p), q_sum(seq_values(kids, sol)))));
        assert(eval_terms(terms, sol).1 >= 1);
    } else {
        let terms2 = terms.drop_last();
        let kids2 = kids.drop_last();
        assert(terms2[0] == terms[0]);
        assert forall|j: int| 0 <= j < kids2.len() implies (#[trigger] terms2[j + 1]).1 == kids2[j]
            && terms2[j + 1].0.v() == (1int, 1int) by {
            assert(terms2[j + 1] == terms[j + 1]);
            assert(kids2[j] == kids[j]);
        }
        lemma_eval_flow(terms2, sol, parent, kids2);
        let p = sol[parent as int].v();
        let last_var = kids[kids.len() - 1];
        let x = sol[last_var as int].v();
        let e2 = eval_terms(terms2, sol);
        let s2 = q_sum(seq_values(kids2, sol));
        // the last term contributes exactly the last child's value
        assert(terms.last() == terms[kids.len() - 1 + 1]);
        assert(terms.last().0.v() == (1int, 1int));
        assert(eval_terms(terms, sol) == q_add(e2, q_mul((1int, 1int), x)));
        assert(q_mul((1int, 1int), x) == (1 * x.0, 1 * x.1));
        // the children's values also grow by the last child's value
        assert(seq_values(kids, sol).drop_last() =~= seq_values(kids2, sol));
        assert(seq_values(kids, sol).last() == x);
        assert(q_sum(seq_values(kids, sol)) == q_add(s2, x));
        lemma_q_add_congr(e2, q_add(q_neg(p), s2), x);
        lemma_q_add_assoc(q_neg(p), s2, x);
        assert(q_mul((1int, 1int), x) == x);
        assert(eval_terms(terms, sol) == q_add(e2, x));
        assert(q_eq(q_add(e2, x), q_add(q_add(q_neg(p), s2), x)));
        assert(q_add(q_add(q_neg(p), s2), x) == q_add(q_neg(p), q_add(s2, x)));
        assert(q_eq(eval_terms(terms, sol), q_add(q_neg(p), q_sum(seq_values(kids, sol)))));
        // denominators stay positive
        assert(sol[last_var as int].wf());
        lemma_den_product_pos(e2.1, x.1);
        assert(eval_terms(terms, sol).1 == e2.1 * x.1);
        assert(eval_terms(terms, sol).1 >= 1);
    }
}

/// LAW: probability-flow conservation.  Any assignment that satisfies a
/// program containing a flow-conservation row forces the sum of the
/// children's sequence values to equal the parent's sequence value.
pub proof fn lemma_flow_conservation(
    lp: LpProblem,
    sol: Seq<Rat>,
    ci: int,
    parent: usize,
    kids: Seq<usize>,
)
    requires
        satisfies(lp, sol),
        0 <= ci < lp.constraints@.len(),
        is_flow_constraint(lp.constraints@[ci], parent, kids),
        (parent as int) < sol.len(),
        forall|j: int| 0 <= j < kids.len() ==> (#[trigger] kids[j] as int) < sol.len(),
    ensures
        q_eq(q_sum(seq_values(kids, sol)), sol[parent as int].v()),
{
    let c = lp.constraints@[ci];
    assert(constraint_holds(c, sol));
    lemma_eval_flow(c.terms@, sol, parent, kids);
    let e = eval_terms(c.terms@, sol);
    let p = sol[parent as int].v();
    let s = q_sum(seq_values(kids, sol));
    let x = q_add(q_neg(p), s);
    // the row evaluates to zero, so its numerator vanishes
    assert(q_eq(e, (0int, 1int)));
    assert(e.0 * 1 == 0 * e.1);
    assert(e.0 == 0);
    // and so does the children-minus-parent numerator
    assert(x.0 * e.1 == e.0 * x.1);
    assert(e.0 * x.1 == 0);
    lemma_product_zero(x.0, e.1);
    // x.0 == (-p.0) * s.1 + s.0 * p.1, so the claim is a sign flip away
    lemma_neg_mul(p.0, s.1);
    assert(s.0 * p.1 == p.0 * s.1);
}

/// LAW: a reach distribution at a reachable decision sums to one.  If
/// each conditional probability equals the child's sequence value
/// divided by the parent's, the parent's value is nonzero, and the
/// children's values add up to the parent's (flow conservation), then
/// the probabilities add up to exactly one.
pub proof fn lemma_reach_distribution_sums_to_one(
    children: Seq<(int, int)>,
    parent: (int, int),
    probs: Seq<(int, int)>,
)
    requires
        parent.0 != 0,
        parent.1 >= 1,
        probs.len() == children.len(),
        forall|i: int| 0 <= i < children.len() ==> (#[trigger] children[i]).1 >= 1,
        forall|i: int| 0 <= i < probs.len() ==> (#[trigger] probs[i]).1 >= 1,
        forall|i: int|
            0 <= i < probs.len() ==> q_eq(#[trigger] probs[i], q_div(children[i], parent)),
        q_eq(q_sum(children), parent),
    ensures
        q_eq(q_sum(probs), (1int, 1int)),
{
    proof_fuel_evals();
    lemma_sum_of_quotients(children, parent, probs, probs.len() as int);
    assert(probs.take(probs.len() as int) =~= probs);
    assert(children.take(children.len() as int) =~= children);
    let s = q_sum(children);
    lemma_q_sum_den_pos(children);
    lemma_q_sum_den_pos(probs);
    // the quotient of the sums is one, by flow conservation
    let d = q_div(s, parent);
    lemma_comm_ints(s.0, s.1, parent.0, parent.1);
    assert(d.0 * 1 == 1 * d.1) by {
        assert(s.0 * parent.1 == parent.0 * s.1);
        lemma_comm_swap(s.0, s.1, parent.0, parent.1);
    }
    assert(q_eq(d, (1int, 1int)));
    lemma_product_nonzero(s.1, parent.0);
    lemma_q_eq_trans(q_sum(probs), d, (1int, 1int));
}

proof fn lemma_comm_swap(s0: int, s1: int, p0: int, p1: int)
    by (nonlinear_arith)
    requires
        s0 * p1 == p0 * s1,
    ensures
        (s0 * p1) * 1 == 1 * (s1 * p0),
{
}

/// An empty sum divided by anything still cross-multiplies as zero.
proof fn lemma_quotient_base(parent: (int, int))
    by (nonlinear_arith)
    ensures
        q_eq((0int, 1int), q_div((0int, 1int), parent)),
{
}

/// The partial sums of the probabilities track the partial sums of the
/// children divided by the parent.
#[verifier::rlimit(50)]
proof fn lemma_sum_of_quotients(
    children: Seq<(int, int)>,
    parent: (int, int),
    probs: Seq<(int, int)>,
    m: int,
)
    requires
        parent.0 != 0,
        parent.1 >= 1,
        probs.len() == children.len(),
        0 <= m <= children.len(),
        forall|i: int| 0 <= i < children.len() ==> (#[trigger] children[i]).1 >= 1,
        forall|i: int| 0 <= i < probs.len() ==> (#[trigger] probs[i]).1 >= 1,
        forall|i: int|
            0 <= i < probs.len() ==> q_eq(#[trigger] probs[i], q_div(children[i], parent)),
    ensures
        q_eq(q_sum(probs.take(m)), q_div(q_sum(children.take(m)), parent)),
    decreases m,
{
    proof_fuel_evals();
    if m == 0 {
        assert(probs.take(0).len() == 0);
        assert(children.take(0).len() == 0);
        assert(q_sum(probs.take(m)) == (0int, 1int));
        assert(q_sum(children.take(m)) == (0int, 1int));
        lemma_quotient_base(parent);
        assert(q_eq(q_sum(probs.take(m)), q_div(q_sum(children.take(m)), parent)));
    } else {
        lemma_sum_of_quotients(children, parent, probs, m - 1);
        let pt = probs.take(m);
        let ct = children.take(m);
        assert(pt.drop_last() =~= probs.take(m - 1));
        assert(ct.drop_last() =~= children.take(m - 1));
        assert(pt.last() == probs[m - 1]);
        assert(ct.last() == children[m - 1]);
        let a = q_sum(probs.take(m - 1));
        let cs = q_sum(children.take(m - 1));
        let b = q_div(cs, parent);
        let q = probs[m - 1];
        let d = q_div(children[m - 1], parent);
        assert(q_sum(pt) == q_add(a, q));
        assert(q_sum(ct) == q_add(cs, children[m - 1]));
        assert forall|i: int| 0 <= i < children.take(m - 1).len() implies (#[trigger] children.take(
            m - 1,
        )[i]).1 >= 1 by {
            assert(children.take(m - 1)[i] == children[i]);
        }
        lemma_q_sum_den_pos(children.take(m - 1));
        // move each addend across its own equality, then combine
        lemma_q_add_congr(a, b, q);
        lemma_q_add_comm(b, q);
        lemma_q_add_congr(q, d, b);
        lemma_q_add_comm(d, b);
        assert(q_eq(q_add(a, q), q_add(b, d))) by {
            assert(q_eq(q_add(a, q), q_add(b, q)));
            assert(q_eq(q_add(b, q), q_add(b, d)));
            lemma_product_nonzero(cs.1, parent.0);
            lemma_product_nonzero(b.1, q.1);
            lemma_q_eq_trans(q_add(a, q), q_add(b, q), q_add(b, d));
        }
        lemma_q_div_add(cs, children[m - 1], parent);
        assert(q_eq(q_sum(pt), q_div(q_sum(ct), parent))) by {
            let mid = q_add(b, d);
            assert(q_eq(q_div(q_sum(ct), parent), mid));
            lemma_product_nonzero(cs.1, parent.0);
            lemma_product_nonzero(children[m - 1].1, parent.0);
            lemma_product_nonzero(b.1, d.1);
            lemma_trans_sym(q_add(a, q), mid, q_div(q_sum(ct), parent));
        }
        assert(q_sum(probs.take(m)) == q_sum(pt));
        assert(q_sum(children.take(m)) == q_sum(ct));
        assert(q_eq(q_sum(probs.take(m)), q_div(q_sum(children.take(m)), parent)));
    }
}

/// Transitivity with the second equality given in the flipped direction.
proof fn lemma_trans_sym(a: (int, int), b: (int, int), c: (int, int))
    requires
        q_eq(a, b),
        q_eq(c, b),
        b.1 != 0,
    ensures
        q_eq(a, c),
{
    lemma_comm_ints(c.0, c.1, b.0, b.1);
    assert(b.0 * c.1 == c.0 * b.1) by {
        lemma_flip_ints(c.0, c.1, b.0, b.1);
    }
    lemma_q_eq_trans(a, b, c);
}

proof fn lemma_flip_ints(c0: int, c1: int, b0: int, b1: int)
    by (nonlinear_arith)
    requires
        c0 * b1 == b0 * c1,
    ensures
        b0 * c1 == c0 * b1,
{
}

} // verus!
