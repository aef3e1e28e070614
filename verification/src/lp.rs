//! Linear-program descriptions.
//!
//! The equilibrium construction emits constraints into two of these
//! problem descriptions, one per player.  A numeric backend outside the
//! library maximizes the objective; the solved variable assignment comes
//! back as one rational per variable and is judged against the spec-level
//! `satisfies` predicate, which is what the equilibrium laws are
//! conditioned on.

use crate::rat::q_add;
use crate::rat::q_eq;
use crate::rat::q_le;
use crate::rat::q_mul;
use crate::rat::Rat;
use vstd::prelude::*;

verus! {

/// The sense of a linear constraint.
#[derive(Clone, Copy, Debug, PartialEq, Eq, Structural)]
pub enum Rel {
    /// Weighted sum at most the constant.
    Le,
    /// Weighted sum equal to the constant.
    Eq,
    /// Weighted sum at least the constant.
    Ge,
}

/// One linear constraint: a weighted sum of variables compared to a
/// constant.
pub struct Constraint {
    /// Coefficient and variable index pairs.
    pub terms: Vec<(Rat, usize)>,
    /// The comparison's sense.
    pub rel: Rel,
    /// The constant right-hand side.
    pub rhs: Rat,
}

/// One linear program: variables, constraints, and an objective to
/// maximize.
pub struct LpProblem {
    /// One entry per variable: whether it is bounded below at zero.
    pub nonneg: Vec<bool>,
    /// The accumulated constraints.
    pub constraints: Vec<Constraint>,
    /// The linear objective, to be maximized.
    pub objective: Vec<(Rat, usize)>,
}

/// The weighted sum of a term list under a variable assignment, as a spec
/// rational.  Terms naming variables outside the assignment count as zero.
pub open spec fn eval_terms(terms: Seq<(Rat, usize)>, sol: Seq<Rat>) -> (int, int)
    decreases terms.len(),
{
    if terms.len() == 0 {
        (0int, 1int)
    } else {
        let t = terms.last();
        let contribution = if (t.1 as int) < sol.len() {
            q_mul(t.0.v(), sol[t.1 as int].v())
        } else {
            (0int, 1int)
        };
        q_add(eval_terms(terms.drop_last(), sol), contribution)
    }
}

/// Whether one constraint holds of an assignment.
pub open spec fn constraint_holds(c: Constraint, sol: Seq<Rat>) -> bool {
    match c.rel {
        Rel::Le => q_le(eval_terms(c.terms@, sol), c.rhs.v()),
        Rel::Eq => q_eq(eval_terms(c.terms@, sol), c.rhs.v()),
        Rel::Ge => q_le(c.rhs.v(), eval_terms(c.terms@, sol)),
    }
}

/// Whether an assignment is feasible for the whole problem: right length,
/// well-formed entries, sign bounds, and every constraint.
pub open spec fn satisfies(lp: LpProblem, sol: Seq<Rat>) -> bool {
    &&& sol.len() == lp.nonneg@.len()
    &&& forall|i: int|
        0 <= i < sol.len() ==> (#[trigger] sol[i]).wf() && (lp.nonneg@[i] ==> q_le(
            (0int, 1int),
            sol[i].v(),
        ))
    &&& forall|ci: int|
        0 <= ci < lp.constraints@.len() ==> constraint_holds(#[trigger] lp.constraints@[ci], sol)
}

impl LpProblem {
    /// A problem with no variables, constraints, or objective yet.
    pub fn new() -> (lp: LpProblem)
        ensures
            lp.nonneg@.len() == 0,
            lp.constraints@.len() == 0,
            lp.objective@.len() == 0,
    {
        LpProblem { nonneg: Vec::new(), constraints: Vec::new(), objective: Vec::new() }
    }

    /// How many variables have been allocated.
    pub fn num_vars(&self) -> (n: usize)
        ensures
            n == self.nonneg@.len(),
    {
        self.nonneg.len()
    }

    /// Allocates a fresh variable; `nonneg` bounds it below at zero.
    pub fn new_var(&mut self, nonneg: bool) -> (v: usize)
        ensures
            v as int == old(self).nonneg@.len(),
            final(self).nonneg@ == old(self).nonneg@.push(nonneg),
            final(self).constraints@ == old(self).constraints@,
            final(self).objective@ == old(self).objective@,
    {
        let v = self.nonneg.len();
        self.nonneg.push(nonneg);
        v
    }

    /// Appends one constraint and reports its index.
    pub fn add_constraint(&mut self, terms: Vec<(Rat, usize)>, rel: Rel, rhs: Rat) -> (ci: usize)
        ensures
            ci as int == old(self).constraints@.len(),
            final(self).constraints@ == old(self).constraints@.push(
                Constraint { terms, rel, rhs },
            ),
            final(self).nonneg@ == old(self).nonneg@,
            final(self).objective@ == old(self).objective@,
    {
        let ci = self.constraints.len();
        self.constraints.push(Constraint { terms, rel, rhs });
        ci
    }

    /// Replaces the objective.
    pub fn set_objective(&mut self, terms: Vec<(Rat, usize)>)
        ensures
            final(self).objective@ == terms@,
            final(self).nonneg@ == old(self).nonneg@,
            final(self).constraints@ == old(self).constraints@,
    {
        self.objective = terms;
    }
}

} // verus!
