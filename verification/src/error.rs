//! Error values.  A failed parse or a failed evaluation is reported to
//! the user through diagnostic lines; the error values themselves only
//! mark that the current unit of work was abandoned.

use vstd::prelude::*;

verus! {

/// A syntax error: the parser abandoned the program.
#[derive(Debug)]
pub struct ParseError {}

/// A runtime error: a type mismatch, an undefined variable, or integer
/// division by zero; the evaluator abandoned the current statement.
#[derive(Debug)]
pub struct RuntimeError {}

} // verus!
