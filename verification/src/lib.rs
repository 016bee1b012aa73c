//! A normal-order evaluator for the untyped lambda calculus.
//!
//! Terms are reduced to beta-normal form by repeatedly renaming every bound
//! variable to a globally fresh name and then contracting the
//! leftmost-outermost redex.

pub mod alpha;
pub mod ast;
pub mod eval;
pub mod laws;
pub mod names;
pub mod path;
pub mod pretty;
pub mod rename;
pub mod term;
