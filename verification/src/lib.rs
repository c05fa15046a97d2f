//! Symbolic evaluation of loop-free control-flow graphs.
//!
//! A function body given as a control-flow graph of basic blocks is turned
//! into a closed-form symbolic expression tree, the tree is simplified by a
//! single folding pass, and the result is lowered into a solver script that
//! decides whether two functions are semantically equivalent for all inputs.

pub mod analysis;
pub mod display;
pub mod equiv;
pub mod eval;
pub mod memory;
pub mod mir;
pub mod optimize;
pub mod sir;
pub mod smtlib;
