//! The tree explorer.
//!
//! `make_node` replays a game under a scripted driver and captures the
//! first unanswered request as one new tree node.  `expand` fills one
//! absent child slot by exploring one branch further; `expand_full` fills
//! every reachable slot.

use crate::common::Driver;
use crate::common::Fault;
use crate::common::Game;
use crate::tree::clone_indices;
use crate::tree::Tree;
use vstd::prelude::*;

verus! {

/// The most game steps one exploration call may drive.
pub const STEP_LIMIT: u64 = 1_000_000;

/// The deepest tree that full expansion will fill.
pub const DEPTH_LIMIT: u64 = 1024;

/// A vector of `n` absent child slots.
fn none_children<G>(n: usize) -> (r: Vec<Option<Tree<G>>>)
    ensures
        r@.len() == n,
        forall|i: int| 0 <= i < n ==> r@[i] is None,
{
    let mut r: Vec<Option<Tree<G>>> = Vec::new();
    while r.len() < n
        invariant
            r@.len() <= n,
            forall|i: int| 0 <= i < r@.len() ==> r@[i] is None,
        decreases n - r@.len(),
    {
        r.push(None);
    }
    r
}

/// Produces exactly one new tree node: the one recording whatever the game
/// requests next once every element of `path` has been consumed as an
/// answer.  The game is stepped repeatedly; the last fully committed
/// snapshot and the unconsumed path suffix are stored on the node so it can
/// be expanded further.
pub fn make_node<G: Game>(root: G, path: Vec<usize>) -> (r: Result<Tree<G>, Fault>)
    ensures
        r matches Ok(t) ==> {
            &&& t.shape_wf()
            &&& forall|i: int| 0 <= i < t.children@.len() ==> t.children@[i] is None
            &&& t.value is None
            &&& t.prob is None
            // the stored replay path is the unconsumed suffix of the script
            &&& exists|k: int| 0 <= k <= path@.len() && t.rest@ == path@.skip(k)
        },
{
    let ghost path0 = path@;
    let mut driver = Driver::new(path);
    let mut committed = root.dup();
    let mut committed_used: usize = 0;
    let mut game = root;
    let mut steps: u64 = 0;
    let mut done = false;
    while !done
        invariant
            steps <= STEP_LIMIT,
            driver.answers@ == path0,
        decreases STEP_LIMIT - steps,
    {
        if steps >= STEP_LIMIT {
            return Err(Fault::StepLimit);
        }
        steps = steps + 1;
        let cont = match game.step(&mut driver) {
            Ok(c) => c,
            Err(f) => {
                return Err(f);
            },
        };
        if cont {
            committed = game.dup();
            committed_used = driver.used;
        } else {
            done = true;
        }
    }
    let shape = match driver.pending {
        Some(s) => s,
        None => {
            return Err(Fault::NoRecord);
        },
    };
    let arity = shape.arity();
    let children = none_children::<G>(arity);
    let start: usize = if committed_used < driver.answers.len() {
        committed_used
    } else {
        driver.answers.len()
    };
    let mut rest: Vec<usize> = Vec::new();
    let mut j: usize = start;
    while j < driver.answers.len()
        invariant
            start <= j <= driver.answers@.len(),
            driver.answers@ == path0,
            rest@ == driver.answers@.subrange(start as int, j as int),
        decreases driver.answers@.len() - j,
    {
        rest.push(driver.answers[j]);
        j = j + 1;
        proof {
            assert(rest@ =~= driver.answers@.subrange(start as int, j as int));
        }
    }
    proof {
        assert(rest@ =~= path0.skip(start as int));
    }
    Ok(Tree { node_type: shape, children, snap: committed, rest, value: None, prob: None })
}

/// Fills one absent child slot.  A slot that is already filled is
/// rejected, and the node is left untouched on any fault.
pub fn expand<G: Game>(node: &mut Tree<G>, child: usize) -> (r: Result<(), Fault>)
    ensures
        child < old(node).children@.len() && old(node).children@[child as int] is Some ==> r
            == Err::<(), Fault>(Fault::AlreadyExpanded),
        child >= old(node).children@.len() ==> r == Err::<(), Fault>(Fault::MissingChild),
        r is Err ==> *final(node) == *old(node),
        r is Ok ==> {
            &&& child < old(node).children@.len()
            &&& old(node).children@[child as int] is None
            &&& final(node).children@.len() == old(node).children@.len()
            &&& final(node).children@[child as int] is Some
            &&& forall|i: int|
                0 <= i < old(node).children@.len() && i != child ==> final(node).children@[i]
                    == old(node).children@[i]
            &&& final(node).node_type == old(node).node_type
            &&& final(node).snap == old(node).snap
            &&& final(node).rest == old(node).rest
            &&& final(node).value == old(node).value
            &&& final(node).prob == old(node).prob
        },
{
    if child >= node.children.len() {
        return Err(Fault::MissingChild);
    }
    let filled = match &node.children[child] {
        Some(_) => true,
        None => false,
    };
    if filled {
        return Err(Fault::AlreadyExpanded);
    }
    let mut child_path = clone_indices(&node.rest);
    child_path.push(child);
    let sub = match make_node(node.snap.dup(), child_path) {
        Ok(t) => t,
        Err(f) => {
            return Err(f);
        },
    };
    let slot = &mut node.children[child];
    *slot = Some(sub);
    Ok(())
}

/// Recursively fills every reachable slot, to exhaustion.  Meant for
/// finite, small games only; the depth budget guards the recursion.
pub fn expand_full<G: Game>(node: &mut Tree<G>) -> (r: Result<(), Fault>)
    ensures
        r is Ok ==> final(node).fully_expanded(),
{
    expand_full_rec(node, DEPTH_LIMIT)
}

fn expand_full_rec<G: Game>(node: &mut Tree<G>, fuel: u64) -> (r: Result<(), Fault>)
    ensures
        r is Ok ==> final(node).fully_expanded(),
    decreases fuel,
{
    if fuel == 0 {
        return Err(Fault::DepthLimit);
    }
    if node.children.len() != node.node_type.arity() {
        return Err(Fault::Shape);
    }
    let n = node.children.len();
    let mut i: usize = 0;
    while i < n
        invariant
            fuel >= 1,
            n == node.children@.len(),
            n == node.node_type.spec_arity(),
            forall|k: int|
                0 <= k < i ==> #[trigger] node.children@[k] is Some
                    && node.children@[k].unwrap().fully_expanded(),
        decreases n - i,
    {
        let filled = match &node.children[i] {
            Some(_) => true,
            None => false,
        };
        if !filled {
            match expand(node, i) {
                Ok(()) => {},
                Err(f) => {
                    return Err(f);
                },
            }
        }
        let mut slot = node.children.remove(i);
        let res: Result<(), Fault> = match &mut slot {
            Some(t) => expand_full_rec(t, fuel - 1),
            None => Err(Fault::MissingChild),
        };
        node.children.insert(i, slot);
        match res {
            Ok(()) => {},
            Err(f) => {
                return Err(f);
            },
        }
        i = i + 1;
    }
    Ok(())
}

} // verus!
