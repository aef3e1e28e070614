//! The sequence-form equilibrium construction.
//!
//! One depth-first walk of the explicit tree builds, for each player, an
//! auxiliary tree over information sets and emits the sequence-form
//! constraints into two linear programs.  The cross-wiring is deliberate
//! and load-bearing: an auxiliary node's sequence variable lives in its
//! own player's program, while its counterfactual-value variable, the
//! per-information-set value variable and the leaf-balance rows live in
//! the opponent's program — each program pins one player's behavior down
//! as the best-response side of the other's optimization.  A second walk
//! reads the solved variable assignments back and annotates the tree with
//! reach distributions and expected values.

use crate::common::clone_msgs;
use crate::common::clone_msg;
use crate::common::clone_rats;
use crate::common::msgs_eq;
use crate::common::Fault;
use crate::common::Game;
use crate::lp::Constraint;
use crate::lp::LpProblem;
use crate::lp::Rel;
use crate::rat::q_add;
use crate::rat::q_div;
use crate::rat::q_eq;
use crate::rat::q_lt;
use crate::rat::q_mul;
use crate::rat::Rat;
use crate::tree::lemma_same_skeleton_refl;
use crate::tree::lemma_slots_match_refl;
use crate::tree::same_skeleton;
use crate::tree::slot_match;
use crate::tree::NodeType;
use crate::tree::Tree;
use vstd::prelude::*;

verus! {

/// The tolerance under which a solved sequence probability counts as
/// never reached.
pub fn eps_rat() -> (r: Rat)
    ensures
        r.wf(),
        r.v() == (1int, 1000000int),
{
    Rat { num: 1, den: 1000000 }
}

/// Every rational in the sequence is well-formed.
pub open spec fn rats_wf(s: Seq<Rat>) -> bool {
    forall|i: int| 0 <= i < s.len() ==> (#[trigger] s[i]).wf()
}

/// One auxiliary node: a sequence of one player (the empty sequence at
/// the root, or an information set plus one chosen branch below).
pub struct AuxNode {
    /// The sequence variable, allocated in the owner's program.
    pub seq_var: usize,
    /// The counterfactual-value variable, allocated in the opponent's
    /// program.
    pub cf_var: usize,
    /// The information sets reached next along this sequence.
    pub infosets: Vec<InfoSet>,
    /// Terminal contributions collected at this sequence: a coefficient
    /// against the opponent's sequence variable, for the opponent-side
    /// leaf-balance row.
    pub terms: Vec<(Rat, usize)>,
}

/// One information set of a player: all tree positions the player cannot
/// tell apart, keyed by the messages seen since that player's last own
/// decision and the branch count offered.
pub struct InfoSet {
    /// The message history part of the key.
    pub key_msgs: Vec<Vec<i32>>,
    /// The branch count part of the key.
    pub key_arity: usize,
    /// One auxiliary node per branch.
    pub children: Vec<AuxNode>,
    /// The information set's value variable, in the opponent's program.
    pub val_var: usize,
    /// The index, in the owner's program, of this set's flow-conservation
    /// constraint.
    pub flow_ci: usize,
    /// Per branch, the index in the opponent's program of that branch's
    /// best-response row.
    pub rows_ci: Vec<usize>,
}

/// The two programs and the two auxiliary trees of one equilibrium solve.
pub struct LpPair {
    /// Player one's program: player one's sequence variables and player
    /// two's value variables.
    pub lp1: LpProblem,
    /// Player two's program, mirrored.
    pub lp2: LpProblem,
    /// Player one's auxiliary tree root.
    pub aux1: AuxNode,
    /// Player two's auxiliary tree root.
    pub aux2: AuxNode,
    /// The goal variable of `lp1`, pinned to player two's root value
    /// variable.
    pub goal1: usize,
    /// The goal variable of `lp2`, pinned to the negated player one root
    /// value variable.
    pub goal2: usize,
    /// The index in `lp1` of the row pinning player one's root sequence
    /// variable to one.
    pub pin1_ci: usize,
    /// The index in `lp2` of the row pinning player two's root sequence
    /// variable to one.
    pub pin2_ci: usize,
    /// The index in `lp1` of the row tying `goal1` to player two's root
    /// value variable.
    pub tie1_ci: usize,
    /// The index in `lp2` of the row tying `goal2` to the negated player
    /// one root value variable.
    pub tie2_ci: usize,
}

/// The shape of a best-response row in the opponent's program: the
/// information set's value variable bounds the branch's value variable,
/// with the inequality's direction set by who owns the decision.
pub open spec fn is_value_row(c: Constraint, val_var: usize, cf: usize, maximizer: bool) -> bool {
    &&& c.rel == Rel::Ge
    &&& c.rhs.v() == (0int, 1int)
    &&& c.terms@.len() == 2
    &&& c.terms@[0].1 == val_var
    &&& c.terms@[1].1 == cf
    &&& (if maximizer {
        c.terms@[0].0.v() == (1int, 1int) && c.terms@[1].0.v() == (-1int, 1int)
    } else {
        c.terms@[0].0.v() == (-1int, 1int) && c.terms@[1].0.v() == (1int, 1int)
    })
}

/// The shape of a root pin: one times the variable equals one.
pub open spec fn is_pin_constraint(c: Constraint, var: usize) -> bool {
    &&& c.rel == Rel::Eq
    &&& c.rhs.v() == (1int, 1int)
    &&& c.terms@.len() == 1
    &&& c.terms@[0].1 == var
    &&& c.terms@[0].0.v() == (1int, 1int)
}

/// The shape of a goal tie: the goal variable plus the signed opponent
/// root value variable equals zero.
pub open spec fn is_goal_tie(c: Constraint, goal: usize, cf: usize, plus: bool) -> bool {
    &&& c.rel == Rel::Eq
    &&& c.rhs.v() == (0int, 1int)
    &&& c.terms@.len() == 2
    &&& c.terms@[0].1 == goal
    &&& c.terms@[0].0.v() == (1int, 1int)
    &&& c.terms@[1].1 == cf
    &&& (if plus {
        c.terms@[1].0.v() == (1int, 1int)
    } else {
        c.terms@[1].0.v() == (-1int, 1int)
    })
}

/// The shape of a leaf-balance row in the opponent's program: the node's
/// value variable equals the sum of its information sets' value variables
/// plus all terminal contributions collected at the node.
pub open spec fn is_balance_constraint(
    c: Constraint,
    cf: usize,
    vals: Seq<usize>,
    terms: Seq<(Rat, usize)>,
) -> bool {
    &&& c.rel == Rel::Eq
    &&& c.rhs.v() == (0int, 1int)
    &&& c.terms@.len() == 1 + vals.len() + terms.len()
    &&& c.terms@[0].1 == cf
    &&& c.terms@[0].0.v() == (-1int, 1int)
    &&& forall|j: int|
        0 <= j < vals.len() ==> (#[trigger] c.terms@[1 + j]).1 == vals[j] && c.terms@[1 + j].0.v()
            == (1int, 1int)
    &&& forall|t: int| 0 <= t < terms.len() ==> #[trigger] c.terms@[1 + vals.len() + t] == terms[t]
}

/// The cross-wired structural invariant of one auxiliary tree against
/// the two programs: every sequence variable lives, nonnegative, in the
/// owner's program; every value variable in the opponent's; every
/// information set's flow row is on record in the owner's program and its
/// best-response rows in the opponent's; information-set keys are
/// pairwise distinct, so equal keys always merge.
pub open spec fn aux_linked(p: AuxNode, own: LpProblem, opp: LpProblem, maximizer: bool) -> bool
    decreases p,
{
    &&& (p.seq_var as int) < own.nonneg@.len()
    &&& own.nonneg@[p.seq_var as int] == true
    &&& (p.cf_var as int) < opp.nonneg@.len()
    &&& forall|t: int|
        0 <= t < p.terms@.len() ==> ((#[trigger] p.terms@[t]).1 as int) < opp.nonneg@.len()
            && p.terms@[t].0.wf()
    &&& forall|k: int|
        0 <= k < p.infosets@.len() ==> iset_linked(
            #[trigger] p.infosets@[k],
            p.seq_var,
            own,
            opp,
            maximizer,
        )
    &&& forall|k1: int, k2: int|
        0 <= k1 < k2 < p.infosets@.len() ==> !(msgs_eq(
            (#[trigger] p.infosets@[k1]).key_msgs@,
            (#[trigger] p.infosets@[k2]).key_msgs@,
        ) && p.infosets@[k1].key_arity == p.infosets@[k2].key_arity)
}

/// The structural invariant of one information set; see `aux_linked`.
pub open spec fn iset_linked(
    s: InfoSet,
    parent_seq: usize,
    own: LpProblem,
    opp: LpProblem,
    maximizer: bool,
) -> bool
    decreases s,
{
    &&& s.children@.len() == s.key_arity
    &&& (s.val_var as int) < opp.nonneg@.len()
    &&& (s.flow_ci as int) < own.constraints@.len()
    &&& crate::laws::is_flow_constraint(
        own.constraints@[s.flow_ci as int],
        parent_seq,
        s.children@.map_values(|c: AuxNode| c.seq_var),
    )
    &&& s.rows_ci@.len() == s.children@.len()
    &&& forall|j: int| 0 <= j < s.children@.len() ==> #[trigger] row_ok(s, j, opp, maximizer)
    &&& forall|j: int|
        0 <= j < s.children@.len() ==> aux_linked(#[trigger] s.children@[j], own, opp, maximizer)
}

/// Branch `j` of the information set has its best-response row on record
/// in the opponent's program.
pub open spec fn row_ok(s: InfoSet, j: int, opp: LpProblem, maximizer: bool) -> bool {
    &&& (s.rows_ci@[j] as int) < opp.constraints@.len()
    &&& is_value_row(
        opp.constraints@[s.rows_ci@[j] as int],
        s.val_var,
        s.children@[j].cf_var,
        maximizer,
    )
}

/// Whether a rational holds exactly the integer pair `n / d`.
fn rat_is(r: &Rat, n: i64, d: i64) -> (b: bool)
    ensures
        b == (r.v() == (n as int, d as int)),
{
    r.num == n && r.den == d
}

/// Run-time check of `is_flow_constraint`.
fn check_flow_row(c: &Constraint, parent: usize, children: &Vec<AuxNode>) -> (r: bool)
    ensures
        r == crate::laws::is_flow_constraint(
            *c,
            parent,
            children@.map_values(|x: AuxNode| x.seq_var),
        ),
{
    let ghost kids = children@.map_values(|x: AuxNode| x.seq_var);
    proof {
        assert(kids.len() == children@.len());
    }
    if !(c.rel == Rel::Eq) {
        return false;
    }
    if !rat_is(&c.rhs, 0, 1) {
        return false;
    }
    if c.terms.len() == 0 || c.terms.len() - 1 != children.len() {
        return false;
    }
    if c.terms[0].1 != parent || !rat_is(&c.terms[0].0, -1, 1) {
        return false;
    }
    let mut j: usize = 0;
    while j < children.len()
        invariant
            j <= children@.len(),
            c.terms@.len() == children@.len() + 1,
            kids == children@.map_values(|x: AuxNode| x.seq_var),
            kids.len() == children@.len(),
            forall|i: int|
                0 <= i < j ==> (#[trigger] c.terms@[i + 1]).1 == kids[i] && c.terms@[i + 1].0.v()
                    == (1int, 1int),
        decreases children@.len() - j,
    {
        proof {
            assert(kids[j as int] == children@[j as int].seq_var);
        }
        if c.terms[j + 1].1 != children[j].seq_var || !rat_is(&c.terms[j + 1].0, 1, 1) {
            return false;
        }
        j = j + 1;
    }
    true
}

/// Run-time check of `is_value_row`.
fn check_value_row(c: &Constraint, val_var: usize, cf: usize, maximizer: bool) -> (r: bool)
    ensures
        r == is_value_row(*c, val_var, cf, maximizer),
{
    if !(c.rel == Rel::Ge) {
        return false;
    }
    if !rat_is(&c.rhs, 0, 1) {
        return false;
    }
    if c.terms.len() != 2 {
        return false;
    }
    if c.terms[0].1 != val_var || c.terms[1].1 != cf {
        return false;
    }
    if maximizer {
        rat_is(&c.terms[0].0, 1, 1) && rat_is(&c.terms[1].0, -1, 1)
    } else {
        rat_is(&c.terms[0].0, -1, 1) && rat_is(&c.terms[1].0, 1, 1)
    }
}

/// Run-time check of `iset_linked`.
fn check_iset_linked(
    s: &InfoSet,
    parent_seq: usize,
    own: &LpProblem,
    opp: &LpProblem,
    maximizer: bool,
) -> (r: bool)
    ensures
        r == iset_linked(*s, parent_seq, *own, *opp, maximizer),
    decreases *s,
{
    if s.children.len() != s.key_arity {
        return false;
    }
    if s.val_var >= opp.nonneg.len() {
        return false;
    }
    if s.flow_ci >= own.constraints.len() {
        return false;
    }
    if !check_flow_row(&own.constraints[s.flow_ci], parent_seq, &s.children) {
        return false;
    }
    if s.rows_ci.len() != s.children.len() {
        return false;
    }
    let mut j: usize = 0;
    while j < s.children.len()
        invariant
            j <= s.children@.len(),
            s.rows_ci@.len() == s.children@.len(),
            forall|i: int| 0 <= i < j ==> #[trigger] row_ok(*s, i, *opp, maximizer),
        decreases s.children@.len() - j,
    {
        if s.rows_ci[j] >= opp.constraints.len() {
            proof {
                assert(!row_ok(*s, j as int, *opp, maximizer));
            }
            return false;
        }
        if !check_value_row(&opp.constraints[s.rows_ci[j]], s.val_var, s.children[j].cf_var, maximizer) {
            proof {
                assert(!row_ok(*s, j as int, *opp, maximizer));
            }
            return false;
        }
        proof {
            assert(row_ok(*s, j as int, *opp, maximizer));
        }
        j = j + 1;
    }
    let mut j2: usize = 0;
    while j2 < s.children.len()
        invariant
            j2 <= s.children@.len(),
            forall|i: int|
                0 <= i < j2 ==> aux_linked(#[trigger] s.children@[i], *own, *opp, maximizer),
            s.rows_ci@.len() == s.children@.len(),
            s.children@.len() == s.key_arity,
            (s.val_var as int) < opp.nonneg@.len(),
            (s.flow_ci as int) < own.constraints@.len(),
            crate::laws::is_flow_constraint(
                own.constraints@[s.flow_ci as int],
                parent_seq,
                s.children@.map_values(|c: AuxNode| c.seq_var),
            ),
            forall|i: int|
                0 <= i < s.children@.len() ==> #[trigger] row_ok(*s, i, *opp, maximizer),
        decreases s.children@.len() - j2,
    {
        if !check_aux_linked(&s.children[j2], own, opp, maximizer) {
            return false;
        }
        j2 = j2 + 1;
    }
    true
}

/// Run-time check of `aux_linked`, the structural invariant that the
/// construction exports and the laws consume.
fn check_aux_linked(p: &AuxNode, own: &LpProblem, opp: &LpProblem, maximizer: bool) -> (r: bool)
    ensures
        r == aux_linked(*p, *own, *opp, maximizer),
    decreases *p,
{
    if p.seq_var >= own.nonneg.len() {
        return false;
    }
    if !own.nonneg[p.seq_var] {
        return false;
    }
    if p.cf_var >= opp.nonneg.len() {
        return false;
    }
    let mut t: usize = 0;
    while t < p.terms.len()
        invariant
            t <= p.terms@.len(),
            forall|i: int|
                0 <= i < t ==> ((#[trigger] p.terms@[i]).1 as int) < opp.nonneg@.len()
                    && p.terms@[i].0.wf(),
        decreases p.terms@.len() - t,
    {
        if p.terms[t].1 >= opp.nonneg.len() || !p.terms[t].0.check_wf() {
            return false;
        }
        t = t + 1;
    }
    let mut k: usize = 0;
    while k < p.infosets.len()
        invariant
            k <= p.infosets@.len(),
            forall|i: int|
                0 <= i < k ==> iset_linked(
                    #[trigger] p.infosets@[i],
                    p.seq_var,
                    *own,
                    *opp,
                    maximizer,
                ),
        decreases p.infosets@.len() - k,
    {
        if !check_iset_linked(&p.infosets[k], p.seq_var, own, opp, maximizer) {
            return false;
        }
        k = k + 1;
    }
    let mut k1: usize = 0;
    while k1 < p.infosets.len()
        invariant
            k1 <= p.infosets@.len(),
            forall|i: int, i2: int|
                0 <= i < i2 < p.infosets@.len() && i < k1 ==> !(msgs_eq(
                    (#[trigger] p.infosets@[i]).key_msgs@,
                    (#[trigger] p.infosets@[i2]).key_msgs@,
                ) && p.infosets@[i].key_arity == p.infosets@[i2].key_arity),
            (p.seq_var as int) < own.nonneg@.len(),
            own.nonneg@[p.seq_var as int] == true,
            (p.cf_var as int) < opp.nonneg@.len(),
            forall|i: int|
                0 <= i < p.terms@.len() ==> ((#[trigger] p.terms@[i]).1 as int)
                    < opp.nonneg@.len() && p.terms@[i].0.wf(),
            forall|i: int|
                0 <= i < p.infosets@.len() ==> iset_linked(
                    #[trigger] p.infosets@[i],
                    p.seq_var,
                    *own,
                    *opp,
                    maximizer,
                ),
        decreases p.infosets@.len() - k1,
    {
        let mut k2: usize = k1 + 1;
        while k2 < p.infosets.len()
            invariant
                k1 < k2,
                k2 <= p.infosets@.len(),
                k1 < p.infosets@.len(),
                forall|i2: int|
                    (k1 as int) < i2 < k2 ==> !(msgs_eq(
                        p.infosets@[k1 as int].key_msgs@,
                        (#[trigger] p.infosets@[i2]).key_msgs@,
                    ) && p.infosets@[k1 as int].key_arity == p.infosets@[i2].key_arity),
            decreases p.infosets@.len() - k2,
        {
            if eq_msgs(&p.infosets[k1].key_msgs, &p.infosets[k2].key_msgs)
                && p.infosets[k1].key_arity == p.infosets[k2].key_arity {
                return false;
            }
            k2 = k2 + 1;
        }
        k1 = k1 + 1;
    }
    true
}

/// Exact equality of two encoded messages.
fn eq_msg(a: &Vec<i32>, b: &Vec<i32>) -> (r: bool)
    ensures
        r == (a@ == b@),
{
    if a.len() != b.len() {
        return false;
    }
    let mut i: usize = 0;
    while i < a.len()
        invariant
            i <= a@.len(),
            a@.len() == b@.len(),
            forall|j: int| 0 <= j < i ==> a@[j] == b@[j],
        decreases a@.len() - i,
    {
        if a[i] != b[i] {
            return false;
        }
        i = i + 1;
    }
    proof {
        assert(a@ =~= b@);
    }
    true
}

/// Exact equality of two message histories.
fn eq_msgs(a: &Vec<Vec<i32>>, b: &Vec<Vec<i32>>) -> (r: bool)
    ensures
        r == msgs_eq(a@, b@),
{
    if a.len() != b.len() {
        return false;
    }
    let mut i: usize = 0;
    while i < a.len()
        invariant
            i <= a@.len(),
            a@.len() == b@.len(),
            forall|j: int| 0 <= j < i ==> a@[j]@ == b@[j]@,
        decreases a@.len() - i,
    {
        if !eq_msg(&a[i], &b[i]) {
            return false;
        }
        i = i + 1;
    }
    true
}

/// Finds the information set with the given key, if one exists.
fn find_infoset(isets: &Vec<InfoSet>, msgs: &Vec<Vec<i32>>, arity: usize) -> (r: Option<usize>)
    ensures
        r matches Some(i) ==> i < isets@.len() && msgs_eq(isets@[i as int].key_msgs@, msgs@)
            && isets@[i as int].key_arity == arity,
        r is None ==> forall|k: int|
            0 <= k < isets@.len() ==> !(msgs_eq((#[trigger] isets@[k]).key_msgs@, msgs@)
                && isets@[k].key_arity == arity),
{
    let mut i: usize = 0;
    while i < isets.len()
        invariant
            i <= isets@.len(),
            forall|k: int|
                0 <= k < i ==> !(msgs_eq((#[trigger] isets@[k]).key_msgs@, msgs@)
                    && isets@[k].key_arity == arity),
        decreases isets@.len() - i,
    {
        if isets[i].key_arity == arity && eq_msgs(&isets[i].key_msgs, msgs) {
            return Some(i);
        }
        i = i + 1;
    }
    None
}

/// Creates a fresh information set under `p`: allocates one sequence
/// variable (owner's program) and one value variable per branch plus the
/// set's own value variable (opponent's program), emits one best-response
/// row per branch into the opponent's program, and one flow-conservation
/// row into the owner's.  `maximizer` tells which way the best-response
/// rows point.
fn make_infoset(
    p: &mut AuxNode,
    lp_own: &mut LpProblem,
    lp_opp: &mut LpProblem,
    msgs: &Vec<Vec<i32>>,
    arity: usize,
    maximizer: bool,
) -> (idx: usize)
    ensures
        idx as int == old(p).infosets@.len(),
        final(p).infosets@.len() == old(p).infosets@.len() + 1,
        final(p).infosets@[idx as int].children@.len() == arity,
        final(p).infosets@[idx as int].key_arity == arity,
        msgs_eq(final(p).infosets@[idx as int].key_msgs@, msgs@),
        final(p).seq_var == old(p).seq_var,
        final(p).cf_var == old(p).cf_var,
        final(p).terms@ == old(p).terms@,
        forall|k: int| 0 <= k < idx ==> final(p).infosets@[k] == old(p).infosets@[k],
        // the recorded flow-conservation row has exactly the shape the
        // conservation law is stated over
        (final(p).infosets@[idx as int].flow_ci as int) < final(lp_own).constraints@.len(),
        crate::laws::is_flow_constraint(
            final(lp_own).constraints@[final(p).infosets@[idx as int].flow_ci as int],
            old(p).seq_var,
            final(p).infosets@[idx as int].children@.map_values(|c: AuxNode| c.seq_var),
        ),
{
    let val_var = lp_opp.new_var(false);
    let mut children: Vec<AuxNode> = Vec::new();
    let mut rows_ci: Vec<usize> = Vec::new();
    let mut flow_terms: Vec<(Rat, usize)> = Vec::new();
    flow_terms.push((Rat::from_int(-1), p.seq_var));
    let mut k: usize = 0;
    while k < arity
        invariant
            k <= arity,
            children@.len() == k,
            rows_ci@.len() == k,
            flow_terms@.len() == k + 1,
            flow_terms@[0].1 == p.seq_var,
            flow_terms@[0].0.v() == (-1int, 1int),
            forall|j: int|
                0 <= j < k ==> (#[trigger] flow_terms@[j + 1]).1 == children@[j].seq_var
                    && flow_terms@[j + 1].0.v() == (1int, 1int),
        decreases arity - k,
    {
        let child_seq = lp_own.new_var(true);
        let child_cf = lp_opp.new_var(false);
        let dir: Rat = if maximizer {
            Rat::one()
        } else {
            Rat::from_int(-1)
        };
        let mut row: Vec<(Rat, usize)> = Vec::new();
        row.push((dir, val_var));
        row.push((dir.neg(), child_cf));
        let rci = lp_opp.add_constraint(row, Rel::Ge, Rat::zero());
        rows_ci.push(rci);
        children.push(
            AuxNode { seq_var: child_seq, cf_var: child_cf, infosets: Vec::new(), terms: Vec::new() },
        );
        flow_terms.push((Rat::one(), child_seq));
        k = k + 1;
    }
    let ghost row = flow_terms@;
    let flow_ci = lp_own.add_constraint(flow_terms, Rel::Eq, Rat::zero());
    proof {
        let kids = children@.map_values(|c: AuxNode| c.seq_var);
        assert(kids.len() == children@.len());
        assert forall|j: int| 0 <= j < kids.len() implies (#[trigger] row[j + 1]).1 == kids[j]
            && row[j + 1].0.v() == (1int, 1int) by {
            assert(kids[j] == children@[j].seq_var);
        }
        assert(crate::laws::is_flow_constraint(
            lp_own.constraints@[flow_ci as int],
            p.seq_var,
            kids,
        ));
    }
    p.infosets.push(
        InfoSet {
            key_msgs: clone_msgs(msgs),
            key_arity: arity,
            children,
            val_var,
            flow_ci,
            rows_ci,
        },
    );
    p.infosets.len() - 1
}

/// Multiplying by a factor known to be one changes nothing.
proof fn lemma_unit_scale(x: int, y: int)
    by (nonlinear_arith)
    requires
        x == 1,
    ensures
        x * y == y,
{
}

/// Records an unexpanded slot: a pessimistic payoff of minus one for
/// player one in player one's balance, and of plus one for player one in
/// player two's.
fn mark_unexpanded(a1: &mut AuxNode, a2: &mut AuxNode, nature: Rat)
    requires
        nature.wf(),
    ensures
        final(a1).seq_var == old(a1).seq_var,
        final(a1).cf_var == old(a1).cf_var,
        final(a1).infosets@ == old(a1).infosets@,
        final(a1).terms@.len() == old(a1).terms@.len() + 1,
        final(a1).terms@.take(old(a1).terms@.len() as int) == old(a1).terms@,
        final(a1).terms@.last().1 == old(a2).seq_var,
        final(a1).terms@.last().0.wf(),
        q_eq(final(a1).terms@.last().0.v(), crate::rat::q_neg(nature.v())),
        final(a2).seq_var == old(a2).seq_var,
        final(a2).cf_var == old(a2).cf_var,
        final(a2).infosets@ == old(a2).infosets@,
        final(a2).terms@.len() == old(a2).terms@.len() + 1,
        final(a2).terms@.take(old(a2).terms@.len() as int) == old(a2).terms@,
        final(a2).terms@.last().1 == old(a1).seq_var,
        final(a2).terms@.last().0 == nature,
{
    a1.terms.push((nature.neg(), a2.seq_var));
    a2.terms.push((nature, a1.seq_var));
    proof {
        assert(a1.terms@.take(old(a1).terms@.len() as int) =~= old(a1).terms@);
        assert(a2.terms@.take(old(a2).terms@.len() as int) =~= old(a2).terms@);
    }
}

/// The construction walk.  `a1` and `a2` are the current sequence nodes
/// of the two players; `nature` is the product of the chance
/// probabilities on the way here; `msgs1` and `msgs2` are the messages
/// each player has seen since their last own decision.
fn explore_node<G: Game>(
    node: &Tree<G>,
    lp1: &mut LpProblem,
    lp2: &mut LpProblem,
    a1: &mut AuxNode,
    a2: &mut AuxNode,
    nature: Rat,
    msgs1: &Vec<Vec<i32>>,
    msgs2: &Vec<Vec<i32>>,
) -> (r: Result<(), Fault>)
    requires
        nature.wf(),
    ensures
        node.node_type is End ==> final(lp1).nonneg@ == old(lp1).nonneg@
            && final(lp2).nonneg@ == old(lp2).nonneg@,
        r matches Err(f) ==> f == Fault::Shape || f == Fault::Numeric,
        final(a1).seq_var == old(a1).seq_var,
        final(a1).cf_var == old(a1).cf_var,
        final(a2).seq_var == old(a2).seq_var,
        final(a2).cf_var == old(a2).cf_var,
        // a terminal leaf pushes one chance-scaled payoff coefficient
        // against the opposite player's sequence variable onto each
        // accumulator, and nothing else
        node.node_type matches NodeType::End(v) && v.wf() && nature.v() == (1int, 1int) ==> r
            is Ok,
        r is Ok ==> (node.node_type matches NodeType::End(v) ==> {
            &&& final(a1).terms@.len() == old(a1).terms@.len() + 1
            &&& final(a1).terms@.take(old(a1).terms@.len() as int) == old(a1).terms@
            &&& final(a1).terms@.last().1 == old(a2).seq_var
            &&& final(a1).terms@.last().0.wf()
            &&& q_eq(final(a1).terms@.last().0.v(), q_mul(nature.v(), v.v()))
            &&& final(a2).terms@.len() == old(a2).terms@.len() + 1
            &&& final(a2).terms@.take(old(a2).terms@.len() as int) == old(a2).terms@
            &&& final(a2).terms@.last().1 == old(a1).seq_var
            &&& final(a2).terms@.last().0 == final(a1).terms@.last().0
            &&& final(a1).infosets@ == old(a1).infosets@
            &&& final(a2).infosets@ == old(a2).infosets@
        }),
    decreases node,
{
    match &node.node_type {
        NodeType::Message1(m) => {
            if node.children.len() < 1 {
                return Err(Fault::Shape);
            }
            let mut next = clone_msgs(msgs1);
            next.push(clone_msg(m));
            match &node.children[0] {
                Some(c) => explore_node(c, lp1, lp2, a1, a2, nature, &next, msgs2),
                None => {
                    mark_unexpanded(a1, a2, nature);
                    Ok(())
                },
            }
        },
        NodeType::Message2(m) => {
            if node.children.len() < 1 {
                return Err(Fault::Shape);
            }
            let mut next = clone_msgs(msgs2);
            next.push(clone_msg(m));
            match &node.children[0] {
                Some(c) => explore_node(c, lp1, lp2, a1, a2, nature, msgs1, &next),
                None => {
                    mark_unexpanded(a1, a2, nature);
                    Ok(())
                },
            }
        },
        NodeType::Player1(c) => {
            let arity = c.len();
            if node.children.len() != arity {
                return Err(Fault::Shape);
            }
            let idx = match find_infoset(&a1.infosets, msgs1, arity) {
                Some(i) => i,
                None => make_infoset(a1, lp1, lp2, msgs1, arity, true),
            };
            let mut iset = a1.infosets.remove(idx);
            if iset.children.len() != arity {
                a1.infosets.insert(idx, iset);
                return Err(Fault::Shape);
            }
            let empty: Vec<Vec<i32>> = Vec::new();
            let mut i: usize = 0;
            while i < arity
                invariant
                    nature.wf(),
                    node.node_type is Player1,
                    iset.children@.len() == arity,
                    node.children@.len() == arity,
                    idx <= a1.infosets@.len(),
                    a1.seq_var == old(a1).seq_var,
                    a1.cf_var == old(a1).cf_var,
                    a2.seq_var == old(a2).seq_var,
                    a2.cf_var == old(a2).cf_var,
                decreases arity - i,
            {
                let mut ca = iset.children.remove(i);
                let r = match &node.children[i] {
                    Some(ch) => explore_node(ch, lp1, lp2, &mut ca, a2, nature, &empty, msgs2),
                    None => {
                        mark_unexpanded(&mut ca, a2, nature);
                        Ok(())
                    },
                };
                iset.children.insert(i, ca);
                match r {
                    Ok(()) => {},
                    Err(f) => {
                        a1.infosets.insert(idx, iset);
                        return Err(f);
                    },
                }
                i = i + 1;
            }
            a1.infosets.insert(idx, iset);
            Ok(())
        },
        NodeType::Player2(c) => {
            let arity = c.len();
            if node.children.len() != arity {
                return Err(Fault::Shape);
            }
            let idx = match find_infoset(&a2.infosets, msgs2, arity) {
                Some(i) => i,
                None => make_infoset(a2, lp2, lp1, msgs2, arity, false),
            };
            let mut iset = a2.infosets.remove(idx);
            if iset.children.len() != arity {
                a2.infosets.insert(idx, iset);
                return Err(Fault::Shape);
            }
            let empty: Vec<Vec<i32>> = Vec::new();
            let mut i: usize = 0;
            while i < arity
                invariant
                    nature.wf(),
                    node.node_type is Player2,
                    iset.children@.len() == arity,
                    node.children@.len() == arity,
                    idx <= a2.infosets@.len(),
                    a1.seq_var == old(a1).seq_var,
                    a1.cf_var == old(a1).cf_var,
                    a2.seq_var == old(a2).seq_var,
                    a2.cf_var == old(a2).cf_var,
                decreases arity - i,
            {
                let mut cb = iset.children.remove(i);
                let r = match &node.children[i] {
                    Some(ch) => explore_node(ch, lp1, lp2, a1, &mut cb, nature, msgs1, &empty),
                    None => {
                        mark_unexpanded(a1, &mut cb, nature);
                        Ok(())
                    },
                };
                iset.children.insert(i, cb);
                match r {
                    Ok(()) => {},
                    Err(f) => {
                        a2.infosets.insert(idx, iset);
                        return Err(f);
                    },
                }
                i = i + 1;
            }
            a2.infosets.insert(idx, iset);
            Ok(())
        },
        NodeType::Random(probs, labels) => {
            let arity = labels.len();
            if node.children.len() != arity || probs.len() != arity {
                return Err(Fault::Shape);
            }
            let mut i: usize = 0;
            while i < arity
                invariant
                    node.node_type is Random,
                    node.children@.len() == arity,
                    probs@.len() == arity,
                    nature.wf(),
                    a1.seq_var == old(a1).seq_var,
                    a1.cf_var == old(a1).cf_var,
                    a2.seq_var == old(a2).seq_var,
                    a2.cf_var == old(a2).cf_var,
                decreases arity - i,
            {
                if !probs[i].check_wf() {
                    return Err(Fault::Numeric);
                }
                let scaled = match nature.mul(probs[i]) {
                    Some(s) => s,
                    None => {
                        return Err(Fault::Numeric);
                    },
                };
                let r = match &node.children[i] {
                    Some(ch) => explore_node(ch, lp1, lp2, a1, a2, scaled, msgs1, msgs2),
                    None => {
                        mark_unexpanded(a1, a2, scaled);
                        Ok(())
                    },
                };
                match r {
                    Ok(()) => {},
                    Err(f) => {
                        return Err(f);
                    },
                }
                i = i + 1;
            }
            Ok(())
        },
        NodeType::End(v) => {
            if !v.check_wf() {
                return Err(Fault::Numeric);
            }
            proof {
                if nature.v() == (1int, 1int) {
                    lemma_unit_scale(nature.v().0, v.v().0);
                    lemma_unit_scale(nature.v().1, v.v().1);
                }
            }
            let coef = match nature.mul(*v) {
                Some(s) => s,
                None => {
                    return Err(Fault::Numeric);
                },
            };
            a1.terms.push((coef, a2.seq_var));
            a2.terms.push((coef, a1.seq_var));
            proof {
                assert(a1.terms@.take(old(a1).terms@.len() as int) =~= old(a1).terms@);
                assert(a2.terms@.take(old(a2).terms@.len() as int) =~= old(a2).terms@);
            }
            Ok(())
        },
    }
}

/// A prefix of a prefix is a prefix.
proof fn lemma_prefix_trans<T>(a: Seq<T>, b: Seq<T>, c: Seq<T>)
    requires
        a.is_prefix_of(b),
        b.is_prefix_of(c),
    ensures
        a.is_prefix_of(c),
{
    assert(a =~= c.subrange(0, a.len() as int));
}

/// Elements of a prefix are stable in the longer sequence.
proof fn lemma_prefix_stable<T>(a: Seq<T>, b: Seq<T>, i: int)
    requires
        a.is_prefix_of(b),
        0 <= i < a.len(),
    ensures
        b[i] == a[i],
{
    assert(a[i] == b.subrange(0, a.len() as int)[i]);
}

/// Emits, post-order over one player's auxiliary tree, the leaf-balance
/// equality of every node into the opponent's program: the node's value
/// variable equals the sum of its information sets' value variables plus
/// all terminal contributions collected at the node.
fn add_leaf_constraints(lp: &mut LpProblem, p: &AuxNode)
    ensures
        final(lp).nonneg@ == old(lp).nonneg@,
        old(lp).constraints@.is_prefix_of(final(lp).constraints@),
        final(lp).constraints@.len() > old(lp).constraints@.len(),
        is_balance_constraint(
            final(lp).constraints@[old(lp).constraints@.len() as int],
            p.cf_var,
            p.infosets@.map_values(|s: InfoSet| s.val_var),
            p.terms@,
        ),
    decreases p,
{
    let ghost base = lp.constraints@.len() as int;
    let ghost vals = p.infosets@.map_values(|s: InfoSet| s.val_var);
    let mut terms: Vec<(Rat, usize)> = Vec::new();
    terms.push((Rat::from_int(-1), p.cf_var));
    let mut k: usize = 0;
    while k < p.infosets.len()
        invariant
            k <= p.infosets@.len(),
            terms@.len() == 1 + k,
            terms@[0].1 == p.cf_var,
            terms@[0].0.v() == (-1int, 1int),
            forall|j: int|
                0 <= j < k ==> (#[trigger] terms@[1 + j]).1 == p.infosets@[j].val_var && terms@[1
                    + j].0.v() == (1int, 1int),
        decreases p.infosets@.len() - k,
    {
        terms.push((Rat::one(), p.infosets[k].val_var));
        k = k + 1;
    }
    let mut t: usize = 0;
    while t < p.terms.len()
        invariant
            t <= p.terms@.len(),
            terms@.len() == 1 + p.infosets@.len() + t,
            terms@[0].1 == p.cf_var,
            terms@[0].0.v() == (-1int, 1int),
            forall|j: int|
                0 <= j < p.infosets@.len() ==> (#[trigger] terms@[1 + j]).1
                    == p.infosets@[j].val_var && terms@[1 + j].0.v() == (1int, 1int),
            forall|u: int|
                0 <= u < t ==> #[trigger] terms@[1 + p.infosets@.len() + u] == p.terms@[u],
        decreases p.terms@.len() - t,
    {
        terms.push(p.terms[t]);
        t = t + 1;
    }
    lp.add_constraint(terms, Rel::Eq, Rat::zero());
    proof {
        assert forall|j: int|
            0 <= j < vals.len() implies (#[trigger] lp.constraints@[base].terms@[1 + j]).1
                == vals[j] && lp.constraints@[base].terms@[1 + j].0.v() == (1int, 1int) by {
            assert(vals[j] == p.infosets@[j].val_var);
        }
        assert(is_balance_constraint(lp.constraints@[base], p.cf_var, vals, p.terms@));
        assert(old(lp).constraints@.is_prefix_of(lp.constraints@)) by {
            assert(old(lp).constraints@ =~= lp.constraints@.subrange(0, base));
        }
    }
    let mut k2: usize = 0;
    while k2 < p.infosets.len()
        invariant
            lp.nonneg@ == old(lp).nonneg@,
            old(lp).constraints@.is_prefix_of(lp.constraints@),
            lp.constraints@.len() > base,
            base == old(lp).constraints@.len(),
            vals == p.infosets@.map_values(|s: InfoSet| s.val_var),
            is_balance_constraint(lp.constraints@[base], p.cf_var, vals, p.terms@),
        decreases p.infosets@.len() - k2,
    {
        let mut j: usize = 0;
        while j < p.infosets[k2].children.len()
            invariant
                k2 < p.infosets@.len(),
                lp.nonneg@ == old(lp).nonneg@,
                old(lp).constraints@.is_prefix_of(lp.constraints@),
                lp.constraints@.len() > base,
                base == old(lp).constraints@.len(),
                vals == p.infosets@.map_values(|s: InfoSet| s.val_var),
                is_balance_constraint(lp.constraints@[base], p.cf_var, vals, p.terms@),
            decreases p.infosets@[k2 as int].children@.len() - j,
        {
            let ghost pre = lp.constraints@;
            add_leaf_constraints(lp, &p.infosets[k2].children[j]);
            proof {
                lemma_prefix_trans(old(lp).constraints@, pre, lp.constraints@);
                lemma_prefix_stable(pre, lp.constraints@, base);
            }
            j = j + 1;
        }
        k2 = k2 + 1;
    }
}

/// Builds the two sequence-form programs for a materialized tree.
///
/// Player one's sequence variables and flow rows go into `lp1` alongside
/// player two's value variables and balance rows, and symmetrically for
/// `lp2`; each root sequence variable is pinned to one, and each program
/// maximizes a goal variable pinned to the opponent-side root value (with
/// a negated sign for player two, since payoffs are recorded from player
/// one's perspective).
pub fn build_lps<G: Game>(root: &Tree<G>) -> (r: Result<LpPair, Fault>)
    requires
        root.fully_expanded(),
    ensures
        r matches Err(f) ==> f == Fault::Shape || f == Fault::Numeric,
        // success is owed at the terminal boundary
        root.node_type matches NodeType::End(v) && v.wf() ==> r is Ok,
        r matches Ok(pair) ==> {
            // the cross-wired structural invariant: each auxiliary tree
            // against its own and its opponent's program
            &&& aux_linked(pair.aux1, pair.lp1, pair.lp2, true)
            &&& aux_linked(pair.aux2, pair.lp2, pair.lp1, false)
            // every auxiliary node's leaf-balance row is on record in the
            // opponent's program
            &&& balanced_rec(pair.aux1, pair.lp2)
            &&& balanced_rec(pair.aux2, pair.lp1)
            // both root sequence variables are pinned to one
            &&& (pair.pin1_ci as int) < pair.lp1.constraints@.len()
            &&& is_pin_constraint(pair.lp1.constraints@[pair.pin1_ci as int], pair.aux1.seq_var)
            &&& (pair.pin2_ci as int) < pair.lp2.constraints@.len()
            &&& is_pin_constraint(pair.lp2.constraints@[pair.pin2_ci as int], pair.aux2.seq_var)
            // each goal variable is tied to the opponent-side root value
            &&& (pair.goal1 as int) < pair.lp1.nonneg@.len()
            &&& (pair.goal2 as int) < pair.lp2.nonneg@.len()
            &&& (pair.tie1_ci as int) < pair.lp1.constraints@.len()
            &&& is_goal_tie(
                pair.lp1.constraints@[pair.tie1_ci as int],
                pair.goal1,
                pair.aux2.cf_var,
                false,
            )
            &&& (pair.tie2_ci as int) < pair.lp2.constraints@.len()
            &&& is_goal_tie(
                pair.lp2.constraints@[pair.tie2_ci as int],
                pair.goal2,
                pair.aux1.cf_var,
                true,
            )
            // each program maximizes exactly its goal variable
            &&& pair.lp1.objective@.len() == 1
            &&& pair.lp1.objective@[0].1 == pair.goal1
            &&& pair.lp1.objective@[0].0.v() == (1int, 1int)
            &&& pair.lp2.objective@.len() == 1
            &&& pair.lp2.objective@[0].1 == pair.goal2
            &&& pair.lp2.objective@[0].0.v() == (1int, 1int)
            &&& (root.node_type matches NodeType::End(_) ==> pair.lp1.nonneg@.len() == 3
                && pair.lp2.nonneg@.len() == 3)
        },
{
    let mut lp1 = LpProblem::new();
    let mut lp2 = LpProblem::new();
    let s1 = lp1.new_var(true);
    let w1 = lp2.new_var(false);
    let mut aux1 = AuxNode { seq_var: s1, cf_var: w1, infosets: Vec::new(), terms: Vec::new() };
    let s2 = lp2.new_var(true);
    let w2 = lp1.new_var(false);
    let mut aux2 = AuxNode { seq_var: s2, cf_var: w2, infosets: Vec::new(), terms: Vec::new() };
    let e1: Vec<Vec<i32>> = Vec::new();
    let e2: Vec<Vec<i32>> = Vec::new();
    match explore_node(root, &mut lp1, &mut lp2, &mut aux1, &mut aux2, Rat::one(), &e1, &e2) {
        Ok(()) => {},
        Err(f) => {
            return Err(f);
        },
    }
    let mut pin1: Vec<(Rat, usize)> = Vec::new();
    pin1.push((Rat::one(), aux1.seq_var));
    let pin1_ci = lp1.add_constraint(pin1, Rel::Eq, Rat::one());
    let mut pin2: Vec<(Rat, usize)> = Vec::new();
    pin2.push((Rat::one(), aux2.seq_var));
    let pin2_ci = lp2.add_constraint(pin2, Rel::Eq, Rat::one());
    let ghost lp1_pinned = lp1.constraints@;
    let ghost lp2_pinned = lp2.constraints@;
    let ghost bal1_ci = lp2.constraints@.len() as int;
    add_leaf_constraints(&mut lp2, &aux1);
    let ghost bal2_ci = lp1.constraints@.len() as int;
    add_leaf_constraints(&mut lp1, &aux2);
    proof {
        lemma_prefix_stable(lp1_pinned, lp1.constraints@, pin1_ci as int);
        lemma_prefix_stable(lp2_pinned, lp2.constraints@, pin2_ci as int);
    }
    let goal1 = lp1.new_var(false);
    let mut tie1: Vec<(Rat, usize)> = Vec::new();
    tie1.push((Rat::one(), goal1));
    tie1.push((Rat::from_int(-1), aux2.cf_var));
    let tie1_ci = lp1.add_constraint(tie1, Rel::Eq, Rat::zero());
    let mut ob1: Vec<(Rat, usize)> = Vec::new();
    ob1.push((Rat::one(), goal1));
    lp1.set_objective(ob1);
    let goal2 = lp2.new_var(false);
    let mut tie2: Vec<(Rat, usize)> = Vec::new();
    tie2.push((Rat::one(), goal2));
    tie2.push((Rat::one(), aux1.cf_var));
    let tie2_ci = lp2.add_constraint(tie2, Rel::Eq, Rat::zero());
    let mut ob2: Vec<(Rat, usize)> = Vec::new();
    ob2.push((Rat::one(), goal2));
    lp2.set_objective(ob2);
    proof {
        // at the terminal boundary the auxiliary trees are trivially
        // linked and their balance rows sit where they were appended, so
        // the validators below must accept them
        match root.node_type {
            NodeType::End(v) => {
                if v.wf() {
                    assert(aux1.terms@[0] == aux1.terms@.last());
                    assert(aux2.terms@[0] == aux2.terms@.last());
                    assert(aux_linked(aux1, lp1, lp2, true));
                    assert(aux_linked(aux2, lp2, lp1, false));
                    assert(is_balance_constraint(
                        lp2.constraints@[bal1_ci],
                        aux1.cf_var,
                        aux1.infosets@.map_values(|s: InfoSet| s.val_var),
                        aux1.terms@,
                    ));
                    assert(is_balance_constraint(
                        lp1.constraints@[bal2_ci],
                        aux2.cf_var,
                        aux2.infosets@.map_values(|s: InfoSet| s.val_var),
                        aux2.terms@,
                    ));
                }
            },
            _ => {},
        }
    }
    // check and export the structural invariant the laws are stated over
    if !check_aux_linked(&aux1, &lp1, &lp2, true) || !check_aux_linked(&aux2, &lp2, &lp1, false) {
        return Err(Fault::Shape);
    }
    // and that every auxiliary node's balance row is on record
    if !check_balanced(&aux1, &lp2) || !check_balanced(&aux2, &lp1) {
        return Err(Fault::Shape);
    }
    Ok(LpPair { lp1, lp2, aux1, aux2, goal1, goal2, pin1_ci, pin2_ci, tie1_ci, tie2_ci })
}

/// The weighted sum of the first `n` labeled children: reach weight
/// times stored value, over children that carry a value.
pub open spec fn spec_weighted_sum<G>(
    children: Seq<Option<Tree<G>>>,
    probs: Seq<Rat>,
    n: int,
) -> (int, int)
    decreases n,
{
    if n <= 0 {
        (0int, 1int)
    } else {
        let rest = spec_weighted_sum(children, probs, n - 1);
        match children[n - 1] {
            Some(c) => match c.value {
                Some(v) => q_add(rest, q_mul(probs[n - 1].v(), v.v())),
                None => rest,
            },
            None => rest,
        }
    }
}

/// Every stored value among the first `n` children is well-formed and
/// has a reach weight.
pub open spec fn child_values_ok<G>(children: Seq<Option<Tree<G>>>, probs: Seq<Rat>, n: int) -> bool {
    forall|i: int|
        0 <= i < n ==> match #[trigger] children[i] {
            Some(c) => match c.value {
                Some(v) => v.wf() && i < probs.len(),
                None => true,
            },
            None => true,
        }
}

/// The weighted sum of well-formed parts has a positive denominator.
proof fn lemma_weighted_sum_den_pos<G>(children: Seq<Option<Tree<G>>>, probs: Seq<Rat>, n: int)
    requires
        rats_wf(probs),
        child_values_ok(children, probs, n),
        n <= children.len(),
    ensures
        spec_weighted_sum(children, probs, n).1 >= 1,
    decreases n,
{
    if n > 0 {
        lemma_weighted_sum_den_pos(children, probs, n - 1);
        let rest = spec_weighted_sum(children, probs, n - 1);
        match children[n - 1] {
            Some(c) => match c.value {
                Some(v) => {
                    crate::laws::lemma_den_product_pos(probs[n - 1].v().1, v.v().1);
                    crate::laws::lemma_den_product_pos(rest.1, probs[n - 1].v().1 * v.v().1);
                },
                None => {},
            },
            None => {},
        }
    }
}

/// The value of a node from its children: the sum, over children that
/// carry a value, of the reach weight times the child value.
fn weighted_value<G: Game>(children: &Vec<Option<Tree<G>>>, probs: &Vec<Rat>) -> (r: Result<
    Rat,
    Fault,
>)
    requires
        rats_wf(probs@),
    ensures
        r matches Ok(v) ==> v.wf() && q_eq(
            v.v(),
            spec_weighted_sum(children@, probs@, children@.len() as int),
        ),
{
    let mut acc = Rat::zero();
    let mut i: usize = 0;
    while i < children.len()
        invariant
            i <= children@.len(),
            acc.wf(),
            rats_wf(probs@),
            child_values_ok(children@, probs@, i as int),
            q_eq(acc.v(), spec_weighted_sum(children@, probs@, i as int)),
        decreases children@.len() - i,
    {
        let ghost rest = spec_weighted_sum(children@, probs@, i as int);
        match &children[i] {
            Some(c) => {
                match &c.value {
                    Some(val) => {
                        if i >= probs.len() {
                            return Err(Fault::Shape);
                        }
                        if !val.check_wf() {
                            return Err(Fault::Numeric);
                        }
                        let w = match probs[i].mul(*val) {
                            Some(w) => w,
                            None => {
                                return Err(Fault::Numeric);
                            },
                        };
                        let acc2 = match acc.add(w) {
                            Some(a) => a,
                            None => {
                                return Err(Fault::Numeric);
                            },
                        };
                        proof {
                            let m = q_mul(probs@[i as int].v(), c.value.unwrap().v());
                            lemma_weighted_sum_den_pos(children@, probs@, i as int);
                            // move both addends across their equalities
                            crate::laws::lemma_q_add_congr(acc.v(), rest, w.v());
                            crate::laws::lemma_q_add_comm(rest, w.v());
                            crate::laws::lemma_q_add_congr(w.v(), m, rest);
                            crate::laws::lemma_q_add_comm(m, rest);
                            crate::laws::lemma_den_product_pos(rest.1, w.v().1);
                            crate::laws::lemma_den_product_pos(acc.v().1, w.v().1);
                            crate::laws::lemma_q_eq_trans(
                                acc2.v(),
                                q_add(acc.v(), w.v()),
                                q_add(rest, w.v()),
                            );
                            crate::laws::lemma_q_eq_trans(
                                acc2.v(),
                                q_add(rest, w.v()),
                                q_add(rest, m),
                            );
                        }
                        acc = acc2;
                    },
                    None => {},
                }
            },
            None => {},
        }
        i = i + 1;
    }
    Ok(acc)
}

/// Every auxiliary node in this subtree has its leaf-balance row on
/// record in the opponent's program.
pub open spec fn balanced_rec(p: AuxNode, opp: LpProblem) -> bool
    decreases p,
{
    &&& exists|ci: int|
        0 <= ci < opp.constraints@.len() && is_balance_constraint(
            #[trigger] opp.constraints@[ci],
            p.cf_var,
            p.infosets@.map_values(|s: InfoSet| s.val_var),
            p.terms@,
        )
    &&& forall|k: int, j: int|
        0 <= k < p.infosets@.len() && 0 <= j < p.infosets@[k].children@.len() ==> balanced_rec(
            #[trigger] p.infosets@[k].children@[j],
            opp,
        )
}

/// Run-time check of `is_balance_constraint`.
fn check_balance_row(c: &Constraint, p: &AuxNode) -> (r: bool)
    ensures
        r == is_balance_constraint(
            *c,
            p.cf_var,
            p.infosets@.map_values(|s: InfoSet| s.val_var),
            p.terms@,
        ),
{
    let ghost vals = p.infosets@.map_values(|s: InfoSet| s.val_var);
    proof {
        assert(vals.len() == p.infosets@.len());
    }
    if !(c.rel == Rel::Eq) {
        return false;
    }
    if !rat_is(&c.rhs, 0, 1) {
        return false;
    }
    if c.terms.len() == 0 {
        return false;
    }
    let body_len = c.terms.len() - 1;
    if body_len < p.infosets.len() {
        return false;
    }
    if body_len - p.infosets.len() != p.terms.len() {
        return false;
    }
    if c.terms[0].1 != p.cf_var || !rat_is(&c.terms[0].0, -1, 1) {
        return false;
    }
    let mut j: usize = 0;
    while j < p.infosets.len()
        invariant
            j <= p.infosets@.len(),
            c.terms@.len() == 1 + p.infosets@.len() + p.terms@.len(),
            vals == p.infosets@.map_values(|s: InfoSet| s.val_var),
            forall|i: int|
                0 <= i < j ==> (#[trigger] c.terms@[1 + i]).1 == vals[i] && c.terms@[1 + i].0.v()
                    == (1int, 1int),
        decreases p.infosets@.len() - j,
    {
        proof {
            assert(vals[j as int] == p.infosets@[j as int].val_var);
            assert(1 + (j as int) < c.terms@.len());
        }
        if c.terms[1 + j].1 != p.infosets[j].val_var || !rat_is(&c.terms[1 + j].0, 1, 1) {
            return false;
        }
        j = j + 1;
    }
    let mut t: usize = 0;
    while t < p.terms.len()
        invariant
            t <= p.terms@.len(),
            c.terms@.len() <= usize::MAX,
            c.terms@.len() == 1 + p.infosets@.len() + p.terms@.len(),
            forall|i: int|
                0 <= i < t ==> #[trigger] c.terms@[1 + p.infosets@.len() + i] == p.terms@[i],
        decreases p.terms@.len() - t,
    {
        proof {
            assert(1 + p.infosets@.len() + (t as int) < c.terms@.len());
        }
        let ct = &c.terms[p.infosets.len() + 1 + t];
        let pt = &p.terms[t];
        if !(ct.0.num == pt.0.num && ct.0.den == pt.0.den && ct.1 == pt.1) {
            return false;
        }
        proof {
            assert(c.terms@[1 + p.infosets@.len() + t as int] == p.terms@[t as int]);
        }
        t = t + 1;
    }
    true
}

/// Run-time soundness check of `balanced_rec`: searches the opponent's
/// program for each node's balance row.
fn check_balanced(p: &AuxNode, opp: &LpProblem) -> (r: bool)
    ensures
        r ==> balanced_rec(*p, *opp),
        p.infosets@.len() == 0 && (exists|ci: int|
            0 <= ci < opp.constraints@.len() && is_balance_constraint(
                #[trigger] opp.constraints@[ci],
                p.cf_var,
                p.infosets@.map_values(|s: InfoSet| s.val_var),
                p.terms@,
            )) ==> r == true,
    decreases *p,
{
    let mut found = false;
    let mut ci: usize = 0;
    while ci < opp.constraints.len() && !found
        invariant
            found ==> ci <= opp.constraints@.len(),
            ci <= opp.constraints@.len(),
            found ==> exists|c2: int|
                0 <= c2 < opp.constraints@.len() && is_balance_constraint(
                    #[trigger] opp.constraints@[c2],
                    p.cf_var,
                    p.infosets@.map_values(|s: InfoSet| s.val_var),
                    p.terms@,
                ),
            !found ==> forall|c2: int|
                0 <= c2 < ci ==> !is_balance_constraint(
                    #[trigger] opp.constraints@[c2],
                    p.cf_var,
                    p.infosets@.map_values(|s: InfoSet| s.val_var),
                    p.terms@,
                ),
        decreases opp.constraints@.len() - ci,
    {
        if check_balance_row(&opp.constraints[ci], p) {
            found = true;
        }
        ci = ci + 1;
    }
    if !found {
        return false;
    }
    let mut k: usize = 0;
    while k < p.infosets.len()
        invariant
            found,
            exists|c2: int|
                0 <= c2 < opp.constraints@.len() && is_balance_constraint(
                    #[trigger] opp.constraints@[c2],
                    p.cf_var,
                    p.infosets@.map_values(|s: InfoSet| s.val_var),
                    p.terms@,
                ),
            forall|k2: int, j2: int|
                0 <= k2 < k && 0 <= j2 < p.infosets@[k2].children@.len() ==> balanced_rec(
                    #[trigger] p.infosets@[k2].children@[j2],
                    *opp,
                ),
        decreases p.infosets@.len() - k,
    {
        let mut j: usize = 0;
        while j < p.infosets[k].children.len()
            invariant
                k < p.infosets@.len(),
                found,
                exists|c2: int|
                    0 <= c2 < opp.constraints@.len() && is_balance_constraint(
                        #[trigger] opp.constraints@[c2],
                        p.cf_var,
                        p.infosets@.map_values(|s: InfoSet| s.val_var),
                        p.terms@,
                    ),
                forall|k2: int, j2: int|
                    0 <= k2 < k && 0 <= j2 < p.infosets@[k2].children@.len() ==> balanced_rec(
                        #[trigger] p.infosets@[k2].children@[j2],
                        *opp,
                    ),
                forall|j2: int|
                    0 <= j2 < j ==> balanced_rec(
                        #[trigger] p.infosets@[k as int].children@[j2],
                        *opp,
                    ),
            decreases p.infosets@[k as int].children@.len() - j,
        {
            if !check_balanced(&p.infosets[k].children[j], opp) {
                return false;
            }
            j = j + 1;
        }
        k = k + 1;
    }
    true
}

/// The views of a message history.
pub open spec fn msgs_view(s: Seq<Vec<i32>>) -> Seq<Seq<i32>> {
    s.map_values(|v: Vec<i32>| v@)
}

/// The key of an information set holds exactly this message history.
pub open spec fn key_matches(key: Seq<Vec<i32>>, vmsgs: Seq<Seq<i32>>) -> bool {
    &&& key.len() == vmsgs.len()
    &&& forall|i: int| 0 <= i < key.len() ==> (#[trigger] key[i])@ == vmsgs[i]
}

/// The node's written value is the reach-weighted sum of its children's
/// written values.
pub open spec fn value_is_weighted_sum<G>(node: Tree<G>) -> bool {
    match (node.value, node.prob) {
        (Some(w), Some(d)) => q_eq(
            w.v(),
            spec_weighted_sum(node.children@, d@, node.children@.len() as int),
        ),
        _ => false,
    }
}

/// What extraction writes onto a solved tree, recursively and in lockstep
/// with both auxiliary trees: terminals keep their stored payoff with an
/// empty distribution; announcements get the singleton distribution and
/// append their message to the recipient's history; chance nodes carry
/// their stored distribution verbatim; a decision node is matched to its
/// player's information set by (history, branch count) and, when its
/// solved parent sequence value is above the tolerance, each written
/// probability equals the branch's solved sequence value divided by the
/// parent's; below the tolerance the node stays unlabeled and its subtree
/// untouched.  Every labeled node's value is the weighted sum of its
/// children's values.
pub open spec fn extracted_ok<G>(
    node: Tree<G>,
    a1: AuxNode,
    a2: AuxNode,
    sol1: Seq<Rat>,
    sol2: Seq<Rat>,
    vmsgs1: Seq<Seq<i32>>,
    vmsgs2: Seq<Seq<i32>>,
) -> bool
    decreases node, 2int,
{
    match node.node_type {
        NodeType::End(v) => {
            &&& node.value == Some(v)
            &&& node.prob matches Some(d) && d@.len() == 0
        },
        NodeType::Message1(m) => {
            &&& node.children@.len() >= 1
            &&& node.prob matches Some(d) && d@.len() == 1 && d@[0].v() == (1int, 1int)
            &&& value_is_weighted_sum(node)
            &&& extracted_slot_ok(node.children@[0], a1, a2, sol1, sol2, vmsgs1.push(m@), vmsgs2)
        },
        NodeType::Message2(m) => {
            &&& node.children@.len() >= 1
            &&& node.prob matches Some(d) && d@.len() == 1 && d@[0].v() == (1int, 1int)
            &&& value_is_weighted_sum(node)
            &&& extracted_slot_ok(node.children@[0], a1, a2, sol1, sol2, vmsgs1, vmsgs2.push(m@))
        },
        NodeType::Player1(opts) => {
            &&& node.children@.len() == opts@.len()
            &&& (a1.seq_var as int) < sol1.len()
            &&& exists|idx: int|
                #![trigger a1.infosets@[idx]]
                {
                    &&& 0 <= idx < a1.infosets@.len()
                    &&& key_matches(a1.infosets@[idx].key_msgs@, vmsgs1)
                    &&& a1.infosets@[idx].key_arity == opts@.len()
                    &&& decision_ok(
                        node,
                        a1.infosets@[idx],
                        a2,
                        sol1,
                        sol2,
                        vmsgs2,
                        true,
                        sol1[a1.seq_var as int],
                    )
                }
        },
        NodeType::Player2(opts) => {
            &&& node.children@.len() == opts@.len()
            &&& (a2.seq_var as int) < sol2.len()
            &&& exists|idx: int|
                #![trigger a2.infosets@[idx]]
                {
                    &&& 0 <= idx < a2.infosets@.len()
                    &&& key_matches(a2.infosets@[idx].key_msgs@, vmsgs2)
                    &&& a2.infosets@[idx].key_arity == opts@.len()
                    &&& decision_ok(
                        node,
                        a2.infosets@[idx],
                        a1,
                        sol2,
                        sol1,
                        vmsgs1,
                        false,
                        sol2[a2.seq_var as int],
                    )
                }
        },
        NodeType::Random(dist, _labels) => {
            &&& node.prob matches Some(d) && d@ == dist@
            &&& value_is_weighted_sum(node)
            &&& forall|i: int|
                0 <= i < node.children@.len() ==> extracted_slot_ok(
                    #[trigger] node.children@[i],
                    a1,
                    a2,
                    sol1,
                    sol2,
                    vmsgs1,
                    vmsgs2,
                )
        },
    }
}

/// Branch `j`'s written probability equals its solved sequence value
/// divided by the parent's.
pub open spec fn div_ok(
    d: Seq<Rat>,
    kids: Seq<AuxNode>,
    sol: Seq<Rat>,
    parent: Rat,
    j: int,
) -> bool {
    &&& (kids[j].seq_var as int) < sol.len()
    &&& q_eq(d[j].v(), q_div(sol[kids[j].seq_var as int].v(), parent.v()))
}

/// What extraction writes at a decision node matched to its information
/// set; see `extracted_ok`.
pub open spec fn decision_ok<G>(
    node: Tree<G>,
    iset: InfoSet,
    opp: AuxNode,
    sol_own: Seq<Rat>,
    sol_opp: Seq<Rat>,
    vmsgs_other: Seq<Seq<i32>>,
    is_p1: bool,
    parent: Rat,
) -> bool
    decreases node, 1int,
{
    if q_lt((1int, 1000000int), parent.v()) {
        &&& node.prob matches Some(d) && ({
            &&& d@.len() == node.children@.len()
            &&& iset.children@.len() == node.children@.len()
            &&& forall|i: int|
                0 <= i < node.children@.len() ==> #[trigger] div_ok(
                    d@,
                    iset.children@,
                    sol_own,
                    parent,
                    i,
                )
        })
        &&& value_is_weighted_sum(node)
        &&& (if is_p1 {
            forall|i: int|
                0 <= i < node.children@.len() ==> extracted_slot_ok(
                    #[trigger] node.children@[i],
                    iset.children@[i],
                    opp,
                    sol_own,
                    sol_opp,
                    Seq::empty(),
                    vmsgs_other,
                )
        } else {
            forall|i: int|
                0 <= i < node.children@.len() ==> extracted_slot_ok(
                    #[trigger] node.children@[i],
                    opp,
                    iset.children@[i],
                    sol_opp,
                    sol_own,
                    vmsgs_other,
                    Seq::empty(),
                )
        })
    } else {
        // unreached under equilibrium: the node stays unlabeled
        &&& node.prob is None
        &&& node.value is None
    }
}

/// A filled slot satisfies the extraction description; an absent slot is
/// fine as it stands.
pub open spec fn extracted_slot_ok<G>(
    slot: Option<Tree<G>>,
    a1: AuxNode,
    a2: AuxNode,
    sol1: Seq<Rat>,
    sol2: Seq<Rat>,
    vmsgs1: Seq<Seq<i32>>,
    vmsgs2: Seq<Seq<i32>>,
) -> bool
    decreases slot, 0int,
{
    match slot {
        Some(c) => extracted_ok(c, a1, a2, sol1, sol2, vmsgs1, vmsgs2),
        None => true,
    }
}

/// Run-time check of `value_is_weighted_sum`, by recomputing the sum.
fn check_weighted<G: Game>(node: &Tree<G>) -> (r: bool)
    ensures
        r ==> value_is_weighted_sum(*node),
{
    match (&node.value, &node.prob) {
        (Some(w), Some(d)) => {
            if !w.check_wf() {
                return false;
            }
            let mut k: usize = 0;
            while k < d.len()
                invariant
                    forall|j: int| 0 <= j < k ==> (#[trigger] d@[j]).wf(),
                decreases d@.len() - k,
            {
                if !d[k].check_wf() {
                    return false;
                }
                k = k + 1;
            }
            match weighted_value(&node.children, d) {
                Ok(v2) => {
                    let same = w.eq_val(v2);
                    proof {
                        if same {
                            crate::laws::lemma_q_eq_trans(
                                w.v(),
                                v2.v(),
                                spec_weighted_sum(
                                    node.children@,
                                    d@,
                                    node.children@.len() as int,
                                ),
                            );
                        }
                    }
                    same
                },
                Err(_) => false,
            }
        },
        _ => false,
    }
}

/// Run-time soundness check of `extracted_ok`: a `true` answer proves the
/// description; numeric edge cases may make it decline a tree it cannot
/// re-derive, which extraction reports as a fault.
fn check_extracted<G: Game>(
    node: &Tree<G>,
    a1: &AuxNode,
    a2: &AuxNode,
    sol1: &Vec<Rat>,
    sol2: &Vec<Rat>,
    msgs1: &Vec<Vec<i32>>,
    msgs2: &Vec<Vec<i32>>,
) -> (r: bool)
    requires
        rats_wf(sol1@),
        rats_wf(sol2@),
    ensures
        r ==> extracted_ok(
            *node,
            *a1,
            *a2,
            sol1@,
            sol2@,
            msgs_view(msgs1@),
            msgs_view(msgs2@),
        ),
        node.node_type matches NodeType::End(v) && node.value == Some(v) && (node.prob
            matches Some(d) && d@.len() == 0) ==> r == true,
    decreases *node,
{
    match &node.node_type {
        NodeType::End(v) => {
            let value_ok = match &node.value {
                Some(w) => w.num == v.num && w.den == v.den,
                None => false,
            };
            let prob_ok = match &node.prob {
                Some(d) => d.len() == 0,
                None => false,
            };
            value_ok && prob_ok
        },
        NodeType::Message1(m) => {
            if node.children.len() < 1 {
                return false;
            }
            let dist_ok = match &node.prob {
                Some(d) => d.len() == 1 && d[0].num == 1 && d[0].den == 1,
                None => false,
            };
            if !dist_ok {
                return false;
            }
            if !check_weighted(node) {
                return false;
            }
            let mut next = clone_msgs(msgs1);
            next.push(clone_msg(m));
            proof {
                assert(msgs_view(next@) =~= msgs_view(msgs1@).push(m@));
            }
            match &node.children[0] {
                Some(c) => check_extracted(c, a1, a2, sol1, sol2, &next, msgs2),
                None => true,
            }
        },
        NodeType::Message2(m) => {
            if node.children.len() < 1 {
                return false;
            }
            let dist_ok = match &node.prob {
                Some(d) => d.len() == 1 && d[0].num == 1 && d[0].den == 1,
                None => false,
            };
            if !dist_ok {
                return false;
            }
            if !check_weighted(node) {
                return false;
            }
            let mut next = clone_msgs(msgs2);
            next.push(clone_msg(m));
            proof {
                assert(msgs_view(next@) =~= msgs_view(msgs2@).push(m@));
            }
            match &node.children[0] {
                Some(c) => check_extracted(c, a1, a2, sol1, sol2, msgs1, &next),
                None => true,
            }
        },
        NodeType::Player1(opts) => {
            let arity = opts.len();
            if node.children.len() != arity {
                return false;
            }
            if a1.seq_var >= sol1.len() {
                return false;
            }
            let idx = match find_infoset(&a1.infosets, msgs1, arity) {
                Some(i) => i,
                None => {
                    return false;
                },
            };
            proof {
                assert(key_matches(a1.infosets@[idx as int].key_msgs@, msgs_view(msgs1@)));
            }
            let parent = sol1[a1.seq_var];
            let eps = eps_rat();
            if eps.lt(parent) {
                proof {
                    lemma_above_eps_nonzero(parent.v().0, parent.v().1);
                }
                let d_ok = match &node.prob {
                    Some(d) => d.len() == node.children.len(),
                    None => false,
                };
                if !d_ok || a1.infosets[idx].children.len() != node.children.len() {
                    return false;
                }
                let d = match &node.prob {
                    Some(d) => d,
                    None => {
                        return false;
                    },
                };
                let mut k: usize = 0;
                while k < node.children.len()
                    invariant
                        node.node_type is Player1,
                        idx < a1.infosets@.len(),
                        a1.infosets@[idx as int].children@.len() == node.children@.len(),
                        d@.len() == node.children@.len(),
                        rats_wf(sol1@),
                        parent.wf(),
                        parent.v().0 != 0,
                        parent == sol1@[a1.seq_var as int],
                        forall|j: int|
                            0 <= j < k ==> #[trigger] div_ok(
                                d@,
                                a1.infosets@[idx as int].children@,
                                sol1@,
                                parent,
                                j,
                            ),
                    decreases node.children@.len() - k,
                {
                    let cs = a1.infosets[idx].children[k].seq_var;
                    if cs >= sol1.len() {
                        return false;
                    }
                    if !d[k].check_wf() {
                        return false;
                    }
                    let q = match sol1[cs].div(parent) {
                        Some(q) => q,
                        None => {
                            return false;
                        },
                    };
                    let same = d[k].eq_val(q);
                    if !same {
                        return false;
                    }
                    proof {
                        crate::laws::lemma_q_eq_trans(
                            d@[k as int].v(),
                            q.v(),
                            q_div(sol1@[cs as int].v(), parent.v()),
                        );
                        assert(cs == a1.infosets@[idx as int].children@[k as int].seq_var);
                        assert(div_ok(
                            d@,
                            a1.infosets@[idx as int].children@,
                            sol1@,
                            parent,
                            k as int,
                        ));
                    }
                    k = k + 1;
                }
                if !check_weighted(node) {
                    return false;
                }
                let empty: Vec<Vec<i32>> = Vec::new();
                proof {
                    assert(msgs_view(empty@) =~= Seq::<Seq<i32>>::empty());
                }
                let mut i: usize = 0;
                while i < node.children.len()
                    invariant
                        node.node_type is Player1,
                        idx < a1.infosets@.len(),
                        a1.infosets@[idx as int].children@.len() == node.children@.len(),
                        rats_wf(sol1@),
                        rats_wf(sol2@),
                        msgs_view(empty@) == Seq::<Seq<i32>>::empty(),
                        forall|j: int|
                            0 <= j < i ==> extracted_slot_ok(
                                #[trigger] node.children@[j],
                                a1.infosets@[idx as int].children@[j],
                                *a2,
                                sol1@,
                                sol2@,
                                Seq::<Seq<i32>>::empty(),
                                msgs_view(msgs2@),
                            ),
                    decreases node.children@.len() - i,
                {
                    let sub_ok = match &node.children[i] {
                        Some(c) => check_extracted(
                            c,
                            &a1.infosets[idx].children[i],
                            a2,
                            sol1,
                            sol2,
                            &empty,
                            msgs2,
                        ),
                        None => true,
                    };
                    if !sub_ok {
                        return false;
                    }
                    i = i + 1;
                }
                proof {
                    assert(decision_ok(
                        *node,
                        a1.infosets@[idx as int],
                        *a2,
                        sol1@,
                        sol2@,
                        msgs_view(msgs2@),
                        true,
                        sol1@[a1.seq_var as int],
                    ));
                }
                true
            } else {
                let unlabeled = match (&node.prob, &node.value) {
                    (None, None) => true,
                    _ => false,
                };
                unlabeled
            }
        },
        NodeType::Player2(opts) => {
            let arity = opts.len();
            if node.children.len() != arity {
                return false;
            }
            if a2.seq_var >= sol2.len() {
                return false;
            }
            let idx = match find_infoset(&a2.infosets, msgs2, arity) {
                Some(i) => i,
                None => {
                    return false;
                },
            };
            proof {
                assert(key_matches(a2.infosets@[idx as int].key_msgs@, msgs_view(msgs2@)));
            }
            let parent = sol2[a2.seq_var];
            let eps = eps_rat();
            if eps.lt(parent) {
                proof {
                    lemma_above_eps_nonzero(parent.v().0, parent.v().1);
                }
                let d_ok = match &node.prob {
                    Some(d) => d.len() == node.children.len(),
                    None => false,
                };
                if !d_ok || a2.infosets[idx].children.len() != node.children.len() {
                    return false;
                }
                let d = match &node.prob {
                    Some(d) => d,
                    None => {
                        return false;
                    },
                };
                let mut k: usize = 0;
                while k < node.children.len()
                    invariant
                        node.node_type is Player2,
                        idx < a2.infosets@.len(),
                        a2.infosets@[idx as int].children@.len() == node.children@.len(),
                        d@.len() == node.children@.len(),
                        rats_wf(sol2@),
                        parent.wf(),
                        parent.v().0 != 0,
                        parent == sol2@[a2.seq_var as int],
                        forall|j: int|
                            0 <= j < k ==> #[trigger] div_ok(
                                d@,
                                a2.infosets@[idx as int].children@,
                                sol2@,
                                parent,
                                j,
                            ),
                    decreases node.children@.len() - k,
                {
                    let cs = a2.infosets[idx].children[k].seq_var;
                    if cs >= sol2.len() {
                        return false;
                    }
                    if !d[k].check_wf() {
                        return false;
                    }
                    let q = match sol2[cs].div(parent) {
                        Some(q) => q,
                        None => {
                            return false;
                        },
                    };
                    let same = d[k].eq_val(q);
                    if !same {
                        return false;
                    }
                    proof {
                        crate::laws::lemma_q_eq_trans(
                            d@[k as int].v(),
                            q.v(),
                            q_div(sol2@[cs as int].v(), parent.v()),
                        );
                        assert(cs == a2.infosets@[idx as int].children@[k as int].seq_var);
                        assert(div_ok(
                            d@,
                            a2.infosets@[idx as int].children@,
                            sol2@,
                            parent,
                            k as int,
                        ));
                    }
                    k = k + 1;
                }
                if !check_weighted(node) {
                    return false;
                }
                let empty: Vec<Vec<i32>> = Vec::new();
                proof {
                    assert(msgs_view(empty@) =~= Seq::<Seq<i32>>::empty());
                }
                let mut i: usize = 0;
                while i < node.children.len()
                    invariant
                        node.node_type is Player2,
                        idx < a2.infosets@.len(),
                        a2.infosets@[idx as int].children@.len() == node.children@.len(),
                        rats_wf(sol1@),
                        rats_wf(sol2@),
                        msgs_view(empty@) == Seq::<Seq<i32>>::empty(),
                        forall|j: int|
                            0 <= j < i ==> extracted_slot_ok(
                                #[trigger] node.children@[j],
                                *a1,
                                a2.infosets@[idx as int].children@[j],
                                sol1@,
                                sol2@,
                                msgs_view(msgs1@),
                                Seq::<Seq<i32>>::empty(),
                            ),
                    decreases node.children@.len() - i,
                {
                    let sub_ok = match &node.children[i] {
                        Some(c) => check_extracted(
                            c,
                            a1,
                            &a2.infosets[idx].children[i],
                            sol1,
                            sol2,
                            msgs1,
                            &empty,
                        ),
                        None => true,
                    };
                    if !sub_ok {
                        return false;
                    }
                    i = i + 1;
                }
                proof {
                    assert(decision_ok(
                        *node,
                        a2.infosets@[idx as int],
                        *a1,
                        sol2@,
                        sol1@,
                        msgs_view(msgs1@),
                        false,
                        sol2@[a2.seq_var as int],
                    ));
                }
                true
            } else {
                let unlabeled = match (&node.prob, &node.value) {
                    (None, None) => true,
                    _ => false,
                };
                unlabeled
            }
        },
        NodeType::Random(dist, _labels) => {
            let d = match &node.prob {
                Some(d) => d,
                None => {
                    return false;
                },
            };
            if d.len() != dist.len() {
                return false;
            }
            let mut k: usize = 0;
            while k < d.len()
                invariant
                    node.node_type is Random,
                    d@.len() == dist@.len(),
                    forall|j: int| 0 <= j < k ==> d@[j] == dist@[j],
                decreases d@.len() - k,
            {
                if !(d[k].num == dist[k].num && d[k].den == dist[k].den) {
                    return false;
                }
                k = k + 1;
            }
            proof {
                assert(d@ =~= dist@);
            }
            if !check_weighted(node) {
                return false;
            }
            let mut i: usize = 0;
            while i < node.children.len()
                invariant
                    node.node_type is Random,
                    rats_wf(sol1@),
                    rats_wf(sol2@),
                    forall|j: int|
                        0 <= j < i ==> extracted_slot_ok(
                            #[trigger] node.children@[j],
                            *a1,
                            *a2,
                            sol1@,
                            sol2@,
                            msgs_view(msgs1@),
                            msgs_view(msgs2@),
                        ),
                decreases node.children@.len() - i,
            {
                let sub_ok = match &node.children[i] {
                    Some(c) => check_extracted(c, a1, a2, sol1, sol2, msgs1, msgs2),
                    None => true,
                };
                if !sub_ok {
                    return false;
                }
                i = i + 1;
            }
            true
        },
    }
}

/// The extraction walk, in lockstep with both auxiliary trees.
fn extract_rec<G: Game>(
    node: &mut Tree<G>,
    a1: &AuxNode,
    a2: &AuxNode,
    sol1: &Vec<Rat>,
    sol2: &Vec<Rat>,
    msgs1: &Vec<Vec<i32>>,
    msgs2: &Vec<Vec<i32>>,
) -> (r: Result<(), Fault>)
    requires
        rats_wf(sol1@),
        rats_wf(sol2@),
    ensures
        final(node).node_type == old(node).node_type,
        // frame: extraction only writes the `value` and `prob` annotations
        same_skeleton(*old(node), *final(node)),
        r is Ok ==> (old(node).node_type matches NodeType::End(v) ==> final(node).value == Some(v)
            && (final(node).prob matches Some(d) && d@.len() == 0)),
        old(node).node_type matches NodeType::End(v) && v.wf() ==> r is Ok,
    decreases *old(node),
{
    proof {
        lemma_slots_match_refl(node.children@);
    }
    match &node.node_type {
        NodeType::End(v) => {
            if !v.check_wf() {
                return Err(Fault::Numeric);
            }
            let vv = *v;
            node.value = Some(vv);
            node.prob = Some(Vec::new());
            Ok(())
        },
        NodeType::Message1(m) => {
            if node.children.len() < 1 {
                return Err(Fault::Shape);
            }
            let mut next = clone_msgs(msgs1);
            next.push(clone_msg(m));
            let r = match &mut node.children[0] {
                Some(c) => extract_rec(c, a1, a2, sol1, sol2, &next, msgs2),
                None => Ok(()),
            };
            proof {
                assert forall|i: int|
                    0 <= i < old(node).children@.len() implies slot_match(
                    #[trigger] old(node).children@[i],
                    node.children@[i],
                ) by {
                    if i != 0 {
                        assert(node.children@[i] == old(node).children@[i]);
                    }
                }
            }
            match r {
                Ok(()) => {},
                Err(f) => {
                    return Err(f);
                },
            }
            let mut probs: Vec<Rat> = Vec::new();
            probs.push(Rat::one());
            let val = match weighted_value(&node.children, &probs) {
                Ok(v) => v,
                Err(f) => {
                    return Err(f);
                },
            };
            node.prob = Some(probs);
            node.value = Some(val);
            Ok(())
        },
        NodeType::Message2(m) => {
            if node.children.len() < 1 {
                return Err(Fault::Shape);
            }
            let mut next = clone_msgs(msgs2);
            next.push(clone_msg(m));
            let r = match &mut node.children[0] {
                Some(c) => extract_rec(c, a1, a2, sol1, sol2, msgs1, &next),
                None => Ok(()),
            };
            proof {
                assert forall|i: int|
                    0 <= i < old(node).children@.len() implies slot_match(
                    #[trigger] old(node).children@[i],
                    node.children@[i],
                ) by {
                    if i != 0 {
                        assert(node.children@[i] == old(node).children@[i]);
                    }
                }
            }
            match r {
                Ok(()) => {},
                Err(f) => {
                    return Err(f);
                },
            }
            let mut probs: Vec<Rat> = Vec::new();
            probs.push(Rat::one());
            let val = match weighted_value(&node.children, &probs) {
                Ok(v) => v,
                Err(f) => {
                    return Err(f);
                },
            };
            node.prob = Some(probs);
            node.value = Some(val);
            Ok(())
        },
        NodeType::Player1(c) => {
            let arity = c.len();
            if node.children.len() != arity {
                return Err(Fault::Shape);
            }
            let idx = match find_infoset(&a1.infosets, msgs1, arity) {
                Some(i) => i,
                None => {
                    return Err(Fault::MissingInfoSet);
                },
            };
            if a1.infosets[idx].children.len() != arity {
                return Err(Fault::Shape);
            }
            if a1.seq_var >= sol1.len() {
                return Err(Fault::SolutionSize);
            }
            let parent = sol1[a1.seq_var];
            let eps = eps_rat();
            if eps.lt(parent) {
                proof {
                    lemma_above_eps_nonzero(parent.v().0, parent.v().1);
                }
                let mut probs: Vec<Rat> = Vec::new();
                let mut k: usize = 0;
                while k < arity
                    invariant
                        idx < a1.infosets@.len(),
                        a1.infosets@[idx as int].children@.len() == arity,
                        rats_wf(sol1@),
                        rats_wf(probs@),
                        parent.wf(),
                        parent.v().0 != 0,
                        old(node).node_type is Player1,
                        node.children@ == old(node).children@,
                        node.snap == old(node).snap,
                        node.rest == old(node).rest,
                        node.node_type == old(node).node_type,
                        forall|j: int|
                            0 <= j < node.children@.len() ==> slot_match(
                                #[trigger] old(node).children@[j],
                                node.children@[j],
                            ),
                    decreases arity - k,
                {
                    let cs = a1.infosets[idx].children[k].seq_var;
                    if cs >= sol1.len() {
                        return Err(Fault::SolutionSize);
                    }
                    let q = match sol1[cs].div(parent) {
                        Some(q) => q,
                        None => {
                            return Err(Fault::Numeric);
                        },
                    };
                    probs.push(q);
                    k = k + 1;
                }
                let empty: Vec<Vec<i32>> = Vec::new();
                let mut i: usize = 0;
                while i < arity
                    invariant
                        node.children@.len() == arity,
                        old(node).children@.len() == arity,
                        forall|j: int| i <= j < arity ==> node.children@[j] == old(
                            node,
                        ).children@[j],
                        forall|j: int|
                            0 <= j < arity ==> slot_match(
                                #[trigger] old(node).children@[j],
                                node.children@[j],
                            ),
                        node.snap == old(node).snap,
                        node.rest == old(node).rest,
                        node.node_type == old(node).node_type,
                        old(node).node_type is Player1,
                        idx < a1.infosets@.len(),
                        a1.infosets@[idx as int].children@.len() == arity,
                        rats_wf(sol1@),
                        rats_wf(sol2@),
                        rats_wf(probs@),
                    decreases arity - i,
                {
                    let r = match &mut node.children[i] {
                        Some(ch) => extract_rec(
                            ch,
                            &a1.infosets[idx].children[i],
                            a2,
                            sol1,
                            sol2,
                            &empty,
                            msgs2,
                        ),
                        None => Ok(()),
                    };
                    match r {
                        Ok(()) => {},
                        Err(f) => {
                            return Err(f);
                        },
                    }
                    i = i + 1;
                }
                let val = match weighted_value(&node.children, &probs) {
                    Ok(v) => v,
                    Err(f) => {
                        return Err(f);
                    },
                };
                node.prob = Some(probs);
                node.value = Some(val);
            } else {
                // unreached under equilibrium: leave the subtree unlabeled
                node.prob = None;
                node.value = None;
            }
            Ok(())
        },
        NodeType::Player2(c) => {
            let arity = c.len();
            if node.children.len() != arity {
                return Err(Fault::Shape);
            }
            let idx = match find_infoset(&a2.infosets, msgs2, arity) {
                Some(i) => i,
                None => {
                    return Err(Fault::MissingInfoSet);
                },
            };
            if a2.infosets[idx].children.len() != arity {
                return Err(Fault::Shape);
            }
            if a2.seq_var >= sol2.len() {
                return Err(Fault::SolutionSize);
            }
            let parent = sol2[a2.seq_var];
            let eps = eps_rat();
            if eps.lt(parent) {
                proof {
                    lemma_above_eps_nonzero(parent.v().0, parent.v().1);
                }
                let mut probs: Vec<Rat> = Vec::new();
                let mut k: usize = 0;
                while k < arity
                    invariant
                        idx < a2.infosets@.len(),
                        a2.infosets@[idx as int].children@.len() == arity,
                        rats_wf(sol2@),
                        rats_wf(probs@),
                        parent.wf(),
                        parent.v().0 != 0,
                        old(node).node_type is Player2,
                        node.children@ == old(node).children@,
                        node.snap == old(node).snap,
                        node.rest == old(node).rest,
                        node.node_type == old(node).node_type,
                        forall|j: int|
                            0 <= j < node.children@.len() ==> slot_match(
                                #[trigger] old(node).children@[j],
                                node.children@[j],
                            ),
                    decreases arity - k,
                {
                    let cs = a2.infosets[idx].children[k].seq_var;
                    if cs >= sol2.len() {
                        return Err(Fault::SolutionSize);
                    }
                    let q = match sol2[cs].div(parent) {
                        Some(q) => q,
                        None => {
                            return Err(Fault::Numeric);
                        },
                    };
                    probs.push(q);
                    k = k + 1;
                }
                let empty: Vec<Vec<i32>> = Vec::new();
                let mut i: usize = 0;
                while i < arity
                    invariant
                        node.children@.len() == arity,
                        old(node).children@.len() == arity,
                        forall|j: int| i <= j < arity ==> node.children@[j] == old(
                            node,
                        ).children@[j],
                        forall|j: int|
                            0 <= j < arity ==> slot_match(
                                #[trigger] old(node).children@[j],
                                node.children@[j],
                            ),
                        node.snap == old(node).snap,
                        node.rest == old(node).rest,
                        node.node_type == old(node).node_type,
                        old(node).node_type is Player2,
                        idx < a2.infosets@.len(),
                        a2.infosets@[idx as int].children@.len() == arity,
                        rats_wf(sol1@),
                        rats_wf(sol2@),
                        rats_wf(probs@),
                    decreases arity - i,
                {
                    let r = match &mut node.children[i] {
                        Some(ch) => extract_rec(
                            ch,
                            a1,
                            &a2.infosets[idx].children[i],
                            sol1,
                            sol2,
                            msgs1,
                            &empty,
                        ),
                        None => Ok(()),
                    };
                    match r {
                        Ok(()) => {},
                        Err(f) => {
                            return Err(f);
                        },
                    }
                    i = i + 1;
                }
                let val = match weighted_value(&node.children, &probs) {
                    Ok(v) => v,
                    Err(f) => {
                        return Err(f);
                    },
                };
                node.prob = Some(probs);
                node.value = Some(val);
            } else {
                node.prob = None;
                node.value = None;
            }
            Ok(())
        },
        NodeType::Random(probs0, labels) => {
            let arity = labels.len();
            if node.children.len() != arity || probs0.len() != arity {
                return Err(Fault::Shape);
            }
            let mut k: usize = 0;
            while k < arity
                invariant
                    probs0@.len() == arity,
                    forall|j: int| 0 <= j < k ==> (#[trigger] probs0@[j]).wf(),
                    old(node).node_type is Random,
                    node.children@ == old(node).children@,
                    node.snap == old(node).snap,
                    node.rest == old(node).rest,
                    node.node_type == old(node).node_type,
                    forall|j: int|
                        0 <= j < node.children@.len() ==> slot_match(
                        #[trigger] old(node).children@[j],
                        node.children@[j],
                        ),
                decreases arity - k,
            {
                if !probs0[k].check_wf() {
                    return Err(Fault::Numeric);
                }
                k = k + 1;
            }
            let dist = clone_rats(probs0);
            let mut i: usize = 0;
            while i < arity
                invariant
                    node.children@.len() == arity,
                    old(node).children@.len() == arity,
                    forall|j: int| i <= j < arity ==> node.children@[j] == old(
                        node,
                    ).children@[j],
                    forall|j: int|
                        0 <= j < arity ==> slot_match(
                            #[trigger] old(node).children@[j],
                            node.children@[j],
                        ),
                    node.snap == old(node).snap,
                    node.rest == old(node).rest,
                    node.node_type == old(node).node_type,
                    old(node).node_type is Random,
                    rats_wf(sol1@),
                    rats_wf(sol2@),
                    rats_wf(dist@),
                decreases arity - i,
            {
                let r = match &mut node.children[i] {
                    Some(ch) => extract_rec(ch, a1, a2, sol1, sol2, msgs1, msgs2),
                    None => Ok(()),
                };
                match r {
                    Ok(()) => {},
                    Err(f) => {
                        return Err(f);
                    },
                }
                i = i + 1;
            }
            let val = match weighted_value(&node.children, &dist) {
                Ok(v) => v,
                Err(f) => {
                    return Err(f);
                },
            };
            node.prob = Some(dist);
            node.value = Some(val);
            Ok(())
        },
    }
}

/// A value strictly above the tolerance of one in a million has a nonzero
/// numerator.
proof fn lemma_above_eps_nonzero(n: int, d: int)
    by (nonlinear_arith)
    requires
        d >= 1,
        1 * d < n * 1000000,
    ensures
        n != 0,
{
}

/// Writes the solved equilibrium back onto the tree: reach distributions
/// at reachable decision nodes (the child's sequence value divided by the
/// parent's), the fixed distribution at chance nodes, and expected values
/// bottom-up.  Decision nodes whose solved parent sequence value is
/// within the tolerance of zero are treated as unreached: their subtrees
/// stay unlabeled.
pub fn extract_solution<G: Game>(
    root: &mut Tree<G>,
    pair: &LpPair,
    sol1: &Vec<Rat>,
    sol2: &Vec<Rat>,
) -> (r: Result<(), Fault>)
    ensures
        final(root).node_type == old(root).node_type,
        // frame: only the `value` and `prob` annotations are written
        same_skeleton(*old(root), *final(root)),
        r is Ok ==> (old(root).node_type matches NodeType::End(v) ==> final(root).value == Some(v)
            && (final(root).prob matches Some(d) && d@.len() == 0)),
        sol1@.len() != pair.lp1.nonneg@.len() || sol2@.len() != pair.lp2.nonneg@.len() ==> r
            == Err::<(), Fault>(Fault::SolutionSize),
        // success is owed at the terminal boundary
        (old(root).node_type matches NodeType::End(v) && v.wf() && rats_wf(sol1@) && rats_wf(sol2@)
            && sol1@.len() == pair.lp1.nonneg@.len() && sol2@.len() == pair.lp2.nonneg@.len())
            ==> r is Ok,
        // on success the whole tree carries the extraction description:
        // divisions at reached decisions, stored distributions at chance
        // nodes, weighted-sum values, unlabeled below-tolerance subtrees
        r is Ok ==> extracted_ok(
            *final(root),
            pair.aux1,
            pair.aux2,
            sol1@,
            sol2@,
            Seq::empty(),
            Seq::empty(),
        ),
{
    proof {
        lemma_same_skeleton_refl(*root);
    }
    if sol1.len() != pair.lp1.num_vars() || sol2.len() != pair.lp2.num_vars() {
        return Err(Fault::SolutionSize);
    }
    let mut i: usize = 0;
    while i < sol1.len()
        invariant
            sol1@.len() == pair.lp1.nonneg@.len(),
            sol2@.len() == pair.lp2.nonneg@.len(),
            forall|j: int| 0 <= j < i ==> (#[trigger] sol1@[j]).wf(),
            root.node_type == old(root).node_type,
            same_skeleton(*old(root), *root),
        decreases sol1@.len() - i,
    {
        if !sol1[i].check_wf() {
            return Err(Fault::Numeric);
        }
        i = i + 1;
    }
    let mut j: usize = 0;
    while j < sol2.len()
        invariant
            sol1@.len() == pair.lp1.nonneg@.len(),
            sol2@.len() == pair.lp2.nonneg@.len(),
            forall|k: int| 0 <= k < j ==> (#[trigger] sol2@[k]).wf(),
            root.node_type == old(root).node_type,
            same_skeleton(*old(root), *root),
        decreases sol2@.len() - j,
    {
        if !sol2[j].check_wf() {
            return Err(Fault::Numeric);
        }
        j = j + 1;
    }
    let e1: Vec<Vec<i32>> = Vec::new();
    let e2: Vec<Vec<i32>> = Vec::new();
    match extract_rec(root, &pair.aux1, &pair.aux2, sol1, sol2, &e1, &e2) {
        Ok(()) => {},
        Err(f) => {
            return Err(f);
        },
    }
    proof {
        assert(msgs_view(e1@) =~= Seq::<Seq<i32>>::empty());
        assert(msgs_view(e2@) =~= Seq::<Seq<i32>>::empty());
    }
    // certify what was written; a decline is an internal-consistency fault
    if !check_extracted(root, &pair.aux1, &pair.aux2, sol1, sol2, &e1, &e2) {
        return Err(Fault::Shape);
    }
    Ok(())
}

} // verus!
