//! Exact equilibrium computation for two-player zero-sum games with
//! imperfect information.
//!
//! The crate materializes a game's decision tree by replaying a step-based
//! game contract under a recording driver, builds the sequence-form linear
//! programs for both players over exact rationals, and writes equilibrium
//! reach probabilities and expected values back onto the tree.  Solving the
//! linear programs themselves is left to a numeric backend outside this
//! crate: the library hands out the two problem descriptions and takes the
//! solved variable assignments back as rationals.

pub mod common;
pub mod exact;
pub mod explorer;
pub mod laws;
pub mod lp;
pub mod rat;
pub mod rps;
pub mod tic_tac_toe;
pub mod tree;
