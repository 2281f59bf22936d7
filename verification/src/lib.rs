//! An English-like scripting language front end and evaluator: a lexer that
//! turns source text into tokens, a recursive-descent parser that builds a
//! statement sequence, a chained-scope environment, and a tree-walking
//! interpreter.
//!
//! Numbers in the language are decimal fixed-point values with ten fractional
//! digits, held as `u128` counts of the smallest unit. Addition saturates at
//! the top of the range; the `same` comparison holds two numbers equal when
//! they lie strictly within a billionth of each other.

use vstd::prelude::*;

pub mod ast;
pub mod environment;
pub mod interpreter;
pub mod lexer;
pub mod numbers;
pub mod parser;
pub mod text;
pub mod token;

verus! {

} // verus!
