//! A small arithmetic-and-variables scripting language.
//!
//! The pipeline has three stages: a lexer that turns source bytes into
//! tokens, a recursive-descent parser that builds statement trees with the
//! usual operator precedence, and a tree-walking evaluator that runs the
//! statements against a mutable variable environment and collects printed
//! values.
//!
//! Numbers are exact rationals ([`rat::Rat`]): a numeric literal such as
//! `1.25` denotes `125/100`, and the four arithmetic operators, power and
//! factorial are computed exactly, with an explicit overflow error when a
//! result does not fit. Division by zero is an evaluation error.

pub mod bytes;
pub mod enums;
pub mod interpreter;
pub mod laws;
pub mod lexer;
pub mod parser;
pub mod rat;
