//! A simultaneous three-option zero-sum matchup.
//!
//! Player one commits to one of three options; player two, told nothing,
//! picks one of the same three; the payoff to player one is plus one,
//! zero or minus one by the cyclic rule of the classic hand game.

use crate::common::Driver;
use crate::common::Fault;
use crate::common::Game;
use crate::common::Serializable;
use crate::common::vec_of_repeat;
use crate::rat::Rat;
use crate::tree::NodeType;
use vstd::pervasive::VecAdditionalExecFns;
use vstd::prelude::*;

verus! {

/// The game state: what player one has committed to, if anything.
#[derive(Clone, Copy, Debug, PartialEq, Eq)]
pub struct RPS {
    /// Player one's chosen branch index, once committed.
    pub p1_choice: Option<i32>,
}

impl RPS {
    /// A fresh matchup with nothing committed.
    pub fn new() -> (g: RPS)
        ensures
            g.p1_choice is None,
    {
        RPS { p1_choice: None }
    }

    /// The three option labels, each encoded one-hot.
    pub fn options() -> (r: Vec<Vec<i32>>)
        ensures
            r@.len() == 3,
    {
        let mut r: Vec<Vec<i32>> = Vec::new();
        let mut v: i32 = 1;
        while v <= 3
            invariant
                1 <= v <= 4,
                r@.len() == v - 1,
            decreases 4 - v,
        {
            let c = Choice { v };
            let encoded = c.serialize();
            r.push(encoded.1);
            v = v + 1;
        }
        r
    }
}

/// One of the three hands, numbered one to three.
#[derive(Clone, Copy, Debug, PartialEq, Eq)]
pub struct Choice {
    /// The hand's number.
    pub v: i32,
}

impl Serializable for Choice {
    fn kind_sizes() -> Vec<usize> {
        let mut r: Vec<usize> = Vec::new();
        r.push(3);
        r
    }

    fn serialize(&self) -> (usize, Vec<i32>) {
        let mut out: Vec<i32> = vec_of_repeat(3, 0);
        if 1 <= self.v && self.v <= 3 {
            out.set((self.v - 1) as usize, 1);
        }
        (0, out)
    }
}

/// The payoff to player one when the players pick branch indices `p1` and
/// `p2`: plus one on a cyclic win, zero on a tie, minus one on a loss.
pub open spec fn rps_payoff(p1: int, p2: int) -> int {
    (p1 + 4 - p2) % 3 - 1
}

impl Game for RPS {
    fn step(&mut self, driver: &mut Driver) -> (r: Result<bool, Fault>)
        ensures
            old(self).p1_choice is None && r == Ok::<bool, Fault>(true) ==> {
                &&& final(self).p1_choice matches Some(i)
                &&& 0 <= i < 3
            },
            old(self).p1_choice is None && r == Ok::<bool, Fault>(false) ==> *final(self) == *old(
                self,
            ),
            // with the script exhausted, the first move's request is
            // captured: the three option labels for player one
            (old(self).p1_choice is None && old(driver).used >= old(driver).answers@.len() && old(
                driver,
            ).pending is None) ==> {
                &&& r == Ok::<bool, Fault>(false)
                &&& final(driver).pending matches Some(NodeType::Player1(opts)) && opts@.len() == 3
            },
            // and so is the second move's request, for player two
            (old(self).p1_choice matches Some(p1) && 0 <= p1 < 3 && old(driver).used >= old(
                driver,
            ).answers@.len() && old(driver).pending is None) ==> {
                &&& r == Ok::<bool, Fault>(false)
                &&& final(driver).pending matches Some(NodeType::Player2(opts)) && opts@.len() == 3
            },
            // an answered first move commits exactly the scripted index
            old(self).p1_choice is None && old(driver).used < old(driver).answers@.len() && (old(
                driver,
            ).answers@[old(driver).used as int] as int) < 3 ==> {
                &&& r == Ok::<bool, Fault>(true)
                &&& final(self).p1_choice == Some(
                    old(driver).answers@[old(driver).used as int] as i32,
                )
                &&& final(driver).used == old(driver).used + 1
            },
            old(self).p1_choice is Some ==> final(self).p1_choice == old(self).p1_choice,
            ({
                // a fully scripted second move records the terminal payoff
                &&& old(self).p1_choice matches Some(p1)
                &&& 0 <= p1 < 3
                &&& old(driver).used < old(driver).answers@.len()
                &&& (old(driver).answers@[old(driver).used as int] as int) < 3
                &&& old(driver).used + 1 >= old(driver).answers@.len()
                &&& old(driver).pending is None
            }) ==> ({
                &&& r == Ok::<bool, Fault>(false)
                &&& final(driver).pending matches Some(NodeType::End(v)) && v.v() == (
                    rps_payoff(
                        old(self).p1_choice->0 as int,
                        old(driver).answers@[old(driver).used as int] as int,
                    ),
                    1int,
                )
            }),
    {
        match self.p1_choice {
            None => {
                let opts = RPS::options();
                let ans = match driver.request(NodeType::Player1(opts)) {
                    Ok(a) => a,
                    Err(f) => {
                        return Err(f);
                    },
                };
                match ans {
                    None => Ok(false),
                    Some(i) => {
                        self.p1_choice = Some(i as i32);
                        Ok(true)
                    },
                }
            },
            Some(p1) => {
                if p1 < 0 || p1 > 2 {
                    return Err(Fault::Shape);
                }
                let opts = RPS::options();
                let ans = match driver.request(NodeType::Player2(opts)) {
                    Ok(a) => a,
                    Err(f) => {
                        return Err(f);
                    },
                };
                match ans {
                    None => Ok(false),
                    Some(i) => {
                        let p2 = i as i32;
                        let a = (p1 + 4 - p2) % 3 - 1;
                        let payoff = Rat::from_int(a as i64);
                        match driver.request(NodeType::End(payoff)) {
                            Ok(_) => Ok(false),
                            Err(f) => Err(f),
                        }
                    },
                }
            },
        }
    }

    fn dup(&self) -> (g: Self)
        ensures
            g == *self,
    {
        *self
    }
}

} // verus!
