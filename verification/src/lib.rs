//! A small symbolic-math engine.
//!
//! * [`parser`] turns the text of an arithmetic expression into tokens and
//!   the tokens into an expression tree, folding every constant
//!   sub-expression into a single number as the tree is built.
//! * [`expr`] holds the expression trees and what it means to fold and to
//!   evaluate them.
//! * [`functions`] is a library of function nodes (sum, product, quotient,
//!   scaled term, power, logarithm) that evaluate against an environment of
//!   named values and report every domain violation as an error.
//! * [`scalar`] holds numbers as IEEE 754 single-precision bit patterns, and
//!   [`arith`] describes the arithmetic on them, which the caller supplies.

pub mod arith;
pub mod expr;
pub mod functions;
pub mod parser;
pub mod scalar;
