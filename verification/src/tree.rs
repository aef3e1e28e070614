//! The explicit decision tree.
//!
//! Every node records the request that created it, an ordered list of child
//! slots (absent means not yet expanded), and the game snapshot plus the
//! replay path needed to expand further.  After equilibrium solving a node
//! additionally carries its expected `value` for player one and, where it
//! applies, a `prob` reach distribution over its children.

use crate::common::clone_msg;
use crate::common::clone_msgs;
use crate::common::clone_rats;
use crate::common::msgs_eq;
use crate::common::Driver;
use crate::common::Fault;
use crate::common::Game;
use crate::rat::Rat;
use vstd::prelude::*;

verus! {

/// The shape of a request, and so of the tree node recording it.
#[derive(Debug)]
pub enum NodeType {
    /// A message delivered to player one; exactly one branch.
    Message1(Vec<i32>),
    /// A message delivered to player two; exactly one branch.
    Message2(Vec<i32>),
    /// A decision by player one among labeled options; one branch each.
    Player1(Vec<Vec<i32>>),
    /// A decision by player two among labeled options; one branch each.
    Player2(Vec<Vec<i32>>),
    /// A chance draw: a probability for each labeled outcome.
    Random(Vec<Rat>, Vec<Vec<i32>>),
    /// The game is over with this payoff to player one.
    End(Rat),
}

impl NodeType {
    /// How many branches a node of this shape owns.
    pub open spec fn spec_arity(&self) -> usize {
        match self {
            NodeType::Message1(_) => 1,
            NodeType::Message2(_) => 1,
            NodeType::Player1(v) => v@.len() as usize,
            NodeType::Player2(v) => v@.len() as usize,
            NodeType::Random(_, v) => v@.len() as usize,
            NodeType::End(_) => 0,
        }
    }

    /// How many branches a node of this shape owns.
    #[verifier::when_used_as_spec(spec_arity)]
    pub fn arity(&self) -> (n: usize)
        ensures
            n as int == self.spec_arity(),
    {
        match self {
            NodeType::Message1(_) => 1,
            NodeType::Message2(_) => 1,
            NodeType::Player1(v) => v.len(),
            NodeType::Player2(v) => v.len(),
            NodeType::Random(_, v) => v.len(),
            NodeType::End(_) => 0,
        }
    }
}

/// One node of the materialized game tree.
#[derive(Debug)]
pub struct Tree<G> {
    /// The request this node records.
    pub node_type: NodeType,
    /// One slot per branch; `None` until expanded.
    pub children: Vec<Option<Tree<G>>>,
    /// The last fully committed game snapshot on the way here.
    pub snap: G,
    /// The branch indices still to replay from `snap` to reach this node.
    pub rest: Vec<usize>,
    /// Expected payoff to player one under equilibrium, once solved.
    pub value: Option<Rat>,
    /// Reach distribution over the children, once solved.
    pub prob: Option<Vec<Rat>>,
}

impl<G> Tree<G> {
    /// The slot count matches the variant's branch count.
    pub open spec fn shape_wf(&self) -> bool {
        self.children@.len() == self.node_type.spec_arity()
    }

    /// Every slot is filled, recursively, and every shape is consistent.
    pub open spec fn fully_expanded(&self) -> bool
        decreases self,
    {
        &&& self.shape_wf()
        &&& forall|i: int|
            0 <= i < self.children@.len() ==> #[trigger] self.children@[i] is Some
                && self.children@[i].unwrap().fully_expanded()
    }

    /// The node reached from here by following `pos` through filled slots.
    pub open spec fn spec_node_at(self, pos: Seq<usize>) -> Option<Tree<G>>
        decreases pos.len(),
    {
        if pos.len() == 0 {
            Some(self)
        } else {
            let i = pos[0] as int;
            if 0 <= i < self.children@.len() {
                match self.children@[i] {
                    Some(c) => c.spec_node_at(pos.drop_first()),
                    None => None,
                }
            } else {
                None
            }
        }
    }

    /// Walks `pos` down from this node through filled slots.
    pub fn node_at(&self, pos: &Vec<usize>) -> (r: Option<&Tree<G>>)
        ensures
            r matches Some(n) ==> self.spec_node_at(pos@) == Some(*n),
            r is None ==> self.spec_node_at(pos@) is None,
    {
        let mut cur: &Tree<G> = self;
        let mut k: usize = 0;
        proof {
            assert(pos@.skip(0) =~= pos@);
        }
        while k < pos.len()
            invariant
                k <= pos@.len(),
                self.spec_node_at(pos@) == cur.spec_node_at(pos@.skip(k as int)),
            decreases pos@.len() - k,
        {
            let i = pos[k];
            proof {
                assert(pos@.skip(k as int)[0] == pos@[k as int]);
                assert(pos@.skip(k as int).drop_first() =~= pos@.skip(k as int + 1));
            }
            if i < cur.children.len() {
                match &cur.children[i] {
                    Some(c) => {
                        cur = c;
                    },
                    None => {
                        return None;
                    },
                }
            } else {
                return None;
            }
            k = k + 1;
        }
        proof {
            assert(pos@.skip(pos@.len() as int) =~= Seq::<usize>::empty());
        }
        Some(cur)
    }
}

/// Two trees agree on everything but the solved annotations: variants,
/// snapshots, replay paths and the filled/absent pattern of every slot
/// are the same; only `value` and `prob` may differ, recursively.
pub open spec fn same_skeleton<G>(a: Tree<G>, b: Tree<G>) -> bool
    decreases a,
{
    &&& b.node_type == a.node_type
    &&& b.snap == a.snap
    &&& b.rest == a.rest
    &&& b.children@.len() == a.children@.len()
    &&& forall|i: int|
        0 <= i < a.children@.len() ==> slot_match(#[trigger] a.children@[i], b.children@[i])
}

/// Two child slots agree structurally: both absent, or both filled with
/// skeleton-equal subtrees.
pub open spec fn slot_match<G>(a: Option<Tree<G>>, b: Option<Tree<G>>) -> bool
    decreases a,
{
    match (a, b) {
        (Some(x), Some(y)) => same_skeleton(x, y),
        (None, None) => true,
        _ => false,
    }
}

/// Skeleton agreement is reflexive.
pub proof fn lemma_same_skeleton_refl<G>(t: Tree<G>)
    ensures
        same_skeleton(t, t),
    decreases t,
{
    assert forall|i: int|
        0 <= i < t.children@.len() implies slot_match(#[trigger] t.children@[i], t.children@[i]) by {
        lemma_slot_match_refl(t.children@[i]);
    }
}

/// Slot agreement is reflexive.
pub proof fn lemma_slot_match_refl<G>(s: Option<Tree<G>>)
    ensures
        slot_match(s, s),
    decreases s,
{
    match s {
        Some(x) => {
            lemma_same_skeleton_refl(x);
        },
        None => {},
    }
}

/// Every slot of a sequence agrees structurally with itself.
pub proof fn lemma_slots_match_refl<G>(s: Seq<Option<Tree<G>>>)
    ensures
        forall|i: int| 0 <= i < s.len() ==> slot_match(#[trigger] s[i], s[i]),
{
    assert forall|i: int| 0 <= i < s.len() implies slot_match(#[trigger] s[i], s[i]) by {
        lemma_slot_match_refl(s[i]);
    }
}

/// Extending the path by one index steps from the reached node into the
/// named child slot.
pub proof fn lemma_node_at_push<G>(t: Tree<G>, pos: Seq<usize>, x: usize)
    ensures
        t.spec_node_at(pos.push(x)) == match t.spec_node_at(pos) {
            Some(n) => {
                if 0 <= (x as int) < n.children@.len() {
                    n.children@[x as int]
                } else {
                    None
                }
            },
            None => None,
        },
    decreases pos.len(),
{
    if pos.len() == 0 {
        assert(pos.push(x).drop_first() =~= pos);
        assert(pos.push(x)[0] == x);
    } else {
        assert(pos.push(x)[0] == pos[0]);
        assert(pos.push(x).drop_first() =~= pos.drop_first().push(x));
        let i = pos[0] as int;
        if 0 <= i < t.children@.len() {
            match t.children@[i] {
                Some(c) => {
                    lemma_node_at_push(c, pos.drop_first(), x);
                },
                None => {},
            }
        }
    }
}

/// A solved tree replayed as a game: each step presents the current node's
/// request verbatim and advances to the pre-expanded child matching the
/// answer.
pub struct TreeGame<G> {
    /// The solved tree being replayed.
    pub tree: Tree<G>,
    /// The branch indices from the root to the current node.
    pub pos: Vec<usize>,
}

impl<G> TreeGame<G> {
    /// Starts a replay at the root of a solved tree.
    pub fn new(tree: Tree<G>) -> (g: TreeGame<G>)
        ensures
            g.tree == tree,
            g.pos@.len() == 0,
    {
        TreeGame { tree, pos: Vec::new() }
    }
}

impl<G: Game> Game for TreeGame<G> {
    fn step(&mut self, driver: &mut Driver) -> (r: Result<bool, Fault>)
        ensures
            final(self).tree == old(self).tree,
            r == Ok::<bool, Fault>(false) ==> final(self).pos@ == old(self).pos@,
            // a committed step advances into the filled child named by the
            // consumed scripted answer
            r == Ok::<bool, Fault>(true) ==> {
                &&& final(self).pos@.len() == old(self).pos@.len() + 1
                &&& final(self).pos@.take(old(self).pos@.len() as int) == old(self).pos@
                &&& old(self).tree.spec_node_at(final(self).pos@) is Some
                &&& old(driver).used < old(driver).answers@.len()
                &&& final(self).pos@.last() == old(driver).answers@[old(driver).used as int]
                &&& final(driver).used == old(driver).used + 1
            },
            // a replay that runs off the expanded tree is a fatal fault
            old(self).tree.spec_node_at(old(self).pos@) is None ==> r == Err::<bool, Fault>(
                Fault::MissingChild,
            ),
            // an in-range scripted answer is owed advancement into the
            // named child when it is filled, and the fatal fault when not
            (old(self).tree.spec_node_at(old(self).pos@) matches Some(n) && old(driver).used < old(
                driver,
            ).answers@.len() && (old(driver).answers@[old(driver).used as int] as int)
                < n.node_type.spec_arity() && !(n.node_type is Random && n.prob is None)) ==> {
                let n = old(self).tree.spec_node_at(old(self).pos@).unwrap();
                let a = old(driver).answers@[old(driver).used as int] as int;
                if a >= n.children@.len() {
                    r == Err::<bool, Fault>(Fault::Shape)
                } else if n.children@[a] is Some {
                    r == Ok::<bool, Fault>(true)
                } else {
                    r == Err::<bool, Fault>(Fault::MissingChild)
                }
            },
            // annotations the replay depends on must be present
            (old(self).tree.spec_node_at(old(self).pos@) matches Some(n) && n.node_type is Random
                && n.prob is None) ==> r == Err::<bool, Fault>(Fault::MissingValue),
            (old(self).tree.spec_node_at(old(self).pos@) matches Some(n) && n.node_type is End
                && n.value is None) ==> r == Err::<bool, Fault>(Fault::MissingValue),
            // with the script exhausted, the captured request presents the
            // current node's stored data verbatim
            (old(self).tree.spec_node_at(old(self).pos@) is Some && old(driver).used >= old(driver).answers@.len()
                && old(driver).pending is None) ==> {
                let n = old(self).tree.spec_node_at(old(self).pos@).unwrap();
                match n.node_type {
                    NodeType::Message1(m) => r == Ok::<bool, Fault>(false) && (final(driver).pending
                        matches Some(NodeType::Message1(m2)) && m2@ == m@),
                    NodeType::Message2(m) => r == Ok::<bool, Fault>(false) && (final(driver).pending
                        matches Some(NodeType::Message2(m2)) && m2@ == m@),
                    NodeType::Player1(v) => r == Ok::<bool, Fault>(false) && (final(driver).pending
                        matches Some(NodeType::Player1(v2)) && msgs_eq(v2@, v@)),
                    NodeType::Player2(v) => r == Ok::<bool, Fault>(false) && (final(driver).pending
                        matches Some(NodeType::Player2(v2)) && msgs_eq(v2@, v@)),
                    NodeType::Random(_, v) => n.prob matches Some(d) ==> r == Ok::<bool, Fault>(false)
                        && (final(driver).pending matches Some(NodeType::Random(d2, v2)) && d2@ == d@
                        && msgs_eq(v2@, v@)),
                    NodeType::End(_) => n.value matches Some(w) ==> r == Ok::<bool, Fault>(false)
                        && final(driver).pending == Some(NodeType::End(w)),
                }
            },
    {
        let node = match self.tree.node_at(&self.pos) {
            Some(n) => n,
            None => {
                return Err(Fault::MissingChild);
            },
        };
        let req: NodeType = match &node.node_type {
            NodeType::Message1(m) => NodeType::Message1(clone_msg(m)),
            NodeType::Message2(m) => NodeType::Message2(clone_msg(m)),
            NodeType::Player1(v) => NodeType::Player1(clone_msgs(v)),
            NodeType::Player2(v) => NodeType::Player2(clone_msgs(v)),
            NodeType::Random(_, v) => {
                // replay offers the solved reach distribution
                match &node.prob {
                    Some(p) => NodeType::Random(clone_rats(p), clone_msgs(v)),
                    None => {
                        return Err(Fault::MissingValue);
                    },
                }
            },
            NodeType::End(_) => {
                match &node.value {
                    Some(v) => NodeType::End(*v),
                    None => {
                        return Err(Fault::MissingValue);
                    },
                }
            },
        };
        let answer = match driver.request(req) {
            Ok(a) => a,
            Err(f) => {
                return Err(f);
            },
        };
        match answer {
            None => Ok(false),
            Some(i) => {
                if i >= node.children.len() {
                    return Err(Fault::Shape);
                }
                match &node.children[i] {
                    Some(_) => {},
                    None => {
                        return Err(Fault::MissingChild);
                    },
                }
                proof {
                    lemma_node_at_push(self.tree, self.pos@, i);
                }
                self.pos.push(i);
                proof {
                    assert(self.pos@.take(self.pos@.len() - 1) =~= old(self).pos@);
                }
                Ok(true)
            },
        }
    }

    fn dup(&self) -> (g: Self) {
        TreeGame { tree: clone_tree(&self.tree), pos: clone_indices(&self.pos) }
    }
}

/// An exact copy of a list of branch indices.
pub fn clone_indices(v: &Vec<usize>) -> (r: Vec<usize>)
    ensures
        r@ == v@,
{
    let mut r: Vec<usize> = Vec::new();
    let mut i: usize = 0;
    while i < v.len()
        invariant
            i <= v@.len(),
            r@ == v@.take(i as int),
        decreases v@.len() - i,
    {
        r.push(v[i]);
        i = i + 1;
        proof {
            assert(r@ =~= v@.take(i as int));
        }
    }
    proof {
        assert(v@.take(v@.len() as int) =~= v@);
    }
    r
}

/// A structural copy of a node label.
pub fn clone_node_type(t: &NodeType) -> (r: NodeType)
{
    match t {
        NodeType::Message1(m) => NodeType::Message1(clone_msg(m)),
        NodeType::Message2(m) => NodeType::Message2(clone_msg(m)),
        NodeType::Player1(v) => NodeType::Player1(clone_msgs(v)),
        NodeType::Player2(v) => NodeType::Player2(clone_msgs(v)),
        NodeType::Random(p, v) => NodeType::Random(clone_rats(p), clone_msgs(v)),
        NodeType::End(v) => NodeType::End(*v),
    }
}

/// A structural copy of a whole subtree.
pub fn clone_tree<G: Game>(t: &Tree<G>) -> (r: Tree<G>)
    decreases t,
{
    let node_type = clone_node_type(&t.node_type);
    let mut children: Vec<Option<Tree<G>>> = Vec::new();
    let mut i: usize = 0;
    while i < t.children.len()
        invariant
            i <= t.children@.len(),
        decreases t.children@.len() - i,
    {
        match &t.children[i] {
            Some(c) => {
                children.push(Some(clone_tree(c)));
            },
            None => {
                children.push(None);
            },
        }
        i = i + 1;
    }
    let value = match &t.value {
        Some(v) => Some(*v),
        None => None,
    };
    let prob = match &t.prob {
        Some(p) => Some(clone_rats(p)),
        None => None,
    };
    Tree {
        node_type,
        children,
        snap: t.snap.dup(),
        rest: clone_indices(&t.rest),
        value,
        prob,
    }
}

} // verus!
