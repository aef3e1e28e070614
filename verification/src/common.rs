//! The step protocol: games, drivers, and faults.
//!
//! A game is a state machine that is advanced one `step` at a time.  During
//! a step it may issue requests to a `Driver`: ask a player to choose among
//! labeled options, ask for a chance draw, deliver a message, or declare
//! the game over.  A driver answers each request from a script of branch
//! indices; the first request with no scripted answer left is captured as
//! `pending` and the step is expected to abort without committing, which is
//! how the explorer materializes one new tree node per call.

use crate::rat::Rat;
use crate::tree::NodeType;
use vstd::prelude::*;

verus! {

/// An internal-consistency violation.  Faults are never recovered inside
/// the library; callers are expected to abort with a diagnostic.
#[derive(Clone, Copy, Debug, PartialEq, Eq, Structural)]
pub enum Fault {
    /// A second request arrived after one was already captured.
    DoubleRecord,
    /// The game came to rest without any request being captured.
    NoRecord,
    /// A scripted answer does not name one of the request's branches.
    AnswerRange,
    /// A child slot was expanded twice.
    AlreadyExpanded,
    /// A child slot was missing where a filled one was needed.
    MissingChild,
    /// A node annotation was missing where the solved tree needed one.
    MissingValue,
    /// No auxiliary node matched a decision node during extraction.
    MissingInfoSet,
    /// A node's child-slot count does not match its variant.
    Shape,
    /// The game did not come to rest within the step budget.
    StepLimit,
    /// Full expansion ran past the depth budget.
    DepthLimit,
    /// An exact rational left the representable range.
    Numeric,
    /// A solution vector does not match its problem's variable count.
    SolutionSize,
}

/// The driver that answers a game's requests from a script.
///
/// `answers[..used]` have been consumed; a request arriving once the script
/// is exhausted is captured in `pending` and left unanswered.
pub struct Driver {
    /// The scripted branch indices.
    pub answers: Vec<usize>,
    /// How many scripted answers have been consumed.
    pub used: usize,
    /// The first unanswered request, if one arrived.
    pub pending: Option<NodeType>,
}

impl Driver {
    /// A fresh driver over a script.
    pub fn new(answers: Vec<usize>) -> (d: Driver)
        ensures
            d.answers == answers,
            d.used == 0,
            d.pending is None,
    {
        Driver { answers, used: 0, pending: None }
    }

    /// Present one request.  A scripted answer in range is consumed and
    /// returned; with the script exhausted the request is captured and
    /// `None` comes back, signalling the step to abort without committing.
    pub fn request(&mut self, req: NodeType) -> (r: Result<Option<usize>, Fault>)
        ensures
            final(self).answers@ == old(self).answers@,
            old(self).used < old(self).answers@.len()
                && (old(self).answers@[old(self).used as int] as int) < req.arity() ==> {
                &&& r == Ok::<Option<usize>, Fault>(
                    Some(old(self).answers@[old(self).used as int]),
                )
                &&& final(self).used == old(self).used + 1
                &&& final(self).pending == old(self).pending
            },
            old(self).used < old(self).answers@.len()
                && (old(self).answers@[old(self).used as int] as int) >= req.arity() ==> {
                &&& r == Err::<Option<usize>, Fault>(Fault::AnswerRange)
                &&& *final(self) == *old(self)
            },
            old(self).used >= old(self).answers@.len() && old(self).pending is None ==> {
                &&& r == Ok::<Option<usize>, Fault>(None)
                &&& final(self).pending == Some(req)
                &&& final(self).used == old(self).used
            },
            old(self).used >= old(self).answers@.len() && old(self).pending is Some ==> {
                &&& r == Err::<Option<usize>, Fault>(Fault::DoubleRecord)
                &&& *final(self) == *old(self)
            },
    {
        if self.used < self.answers.len() {
            let a = self.answers[self.used];
            if a < req.arity() {
                self.used = self.used + 1;
                Ok(Some(a))
            } else {
                Err(Fault::AnswerRange)
            }
        } else if self.pending.is_none() {
            self.pending = Some(req);
            Ok(None)
        } else {
            Err(Fault::DoubleRecord)
        }
    }
}

/// A game that can be driven step by step.
///
/// `step` advances the game by one transition: it may present requests to
/// the driver and must abort (returning `Ok(false)`) as soon as a request
/// comes back unanswered, leaving its observable state as a caller's
/// snapshot discipline expects.  `Ok(true)` means the step fully committed
/// and the game can be stepped again; `Ok(false)` means the game came to
/// rest, either suspended on an unanswered request or finished.
pub trait Game: Sized {
    /// Advance by one step under the given driver.
    fn step(&mut self, driver: &mut Driver) -> (r: Result<bool, Fault>)
        ensures
            final(driver).answers@ == old(driver).answers@,
    ;

    /// An exact copy of the game state.
    fn dup(&self) -> Self;
}

/// Encoding of messages and choice labels as plain integer vectors.
pub trait Serializable {
    /// The sizes of the encoding's sections.
    fn kind_sizes() -> Vec<usize>;

    /// The section index and the encoded payload.
    fn serialize(&self) -> (usize, Vec<i32>);
}

/// A front-end capability able to play one side of a game; implemented
/// outside the library (for a console, for a sampler), so no behavior is
/// promised of it.
pub trait Player {
    /// Pick one of the offered labels.
    fn pick(&mut self, options: &Vec<Vec<i32>>) -> usize;

    /// Receive an informational message.
    fn receive_message(&mut self, msg: &Vec<i32>);
}

/// A vector holding `n` copies of `v`.
pub fn vec_of_repeat<T: Copy>(n: usize, v: T) -> (r: Vec<T>)
    ensures
        r@.len() == n,
        forall|i: int| 0 <= i < n ==> r@[i] == v,
{
    let mut r: Vec<T> = Vec::new();
    while r.len() < n
        invariant
            r@.len() <= n,
            forall|i: int| 0 <= i < r@.len() ==> r@[i] == v,
        decreases n - r@.len(),
    {
        r.push(v);
    }
    r
}

/// An exact copy of an integer-vector message.
pub fn clone_msg(m: &Vec<i32>) -> (r: Vec<i32>)
    ensures
        r@ == m@,
{
    let mut r: Vec<i32> = Vec::new();
    let mut i: usize = 0;
    while i < m.len()
        invariant
            i <= m@.len(),
            r@ == m@.take(i as int),
        decreases m@.len() - i,
    {
        r.push(m[i]);
        i = i + 1;
        proof {
            assert(r@ =~= m@.take(i as int));
        }
    }
    proof {
        assert(m@.take(m@.len() as int) =~= m@);
    }
    r
}

/// Two message lists hold the same messages.
pub open spec fn msgs_eq(a: Seq<Vec<i32>>, b: Seq<Vec<i32>>) -> bool {
    a.len() == b.len() && forall|i: int| 0 <= i < a.len() ==> a[i]@ == b[i]@
}

/// An exact copy of a list of messages.
pub fn clone_msgs(v: &Vec<Vec<i32>>) -> (r: Vec<Vec<i32>>)
    ensures
        msgs_eq(r@, v@),
{
    let mut r: Vec<Vec<i32>> = Vec::new();
    let mut i: usize = 0;
    while i < v.len()
        invariant
            i <= v@.len(),
            r@.len() == i,
            forall|j: int| 0 <= j < i ==> r@[j]@ == v@[j]@,
        decreases v@.len() - i,
    {
        r.push(clone_msg(&v[i]));
        i = i + 1;
    }
    r
}

/// An exact copy of a list of rationals.
pub fn clone_rats(v: &Vec<Rat>) -> (r: Vec<Rat>)
    ensures
        r@ == v@,
{
    let mut r: Vec<Rat> = Vec::new();
    let mut i: usize = 0;
    while i < v.len()
        invariant
            i <= v@.len(),
            r@ == v@.take(i as int),
        decreases v@.len() - i,
    {
        r.push(v[i]);
        i = i + 1;
        proof {
            assert(r@ =~= v@.take(i as int));
        }
    }
    proof {
        assert(v@.take(v@.len() as int) =~= v@);
    }
    r
}

} // verus!
