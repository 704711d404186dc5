//! An expression engine over JSON-like values.
//!
//! A `Node` tree describes a traversal or reshaping of a dynamically typed
//! `Value` (null, boolean, number, string, list, dictionary); `evaluate` runs
//! it against an input. Type mismatches resolve to null or false, never to a
//! fault; a tree holding a slice with step zero is reported as malformed.
//! Every executable function is proved against the spec function
//! `eval_spec` and the models of the `value` module.

use vstd::prelude::*;

pub mod builder;
pub mod eval;
pub mod laws;
pub mod lists;
pub mod node;
pub mod number;
pub mod slicing;
pub mod strs;
pub mod value;

verus! {

} // verus!
