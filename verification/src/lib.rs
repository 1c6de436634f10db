//! Core of a minimal Lisp-style expression language: a lexer that splits a
//! source line into tokens, a recursive-descent reader that turns tokens into
//! an expression tree, an environment of named bindings, and a tree-walking
//! evaluator with the built-in arithmetic procedures `+` and `-`.
//!
//! Numbers are IEEE-754 double-precision values, carried everywhere as their
//! 64-bit patterns; the arithmetic itself is done by the `rustc_apfloat`
//! software implementation of the same format.

pub mod exp;
pub mod numeric;
pub mod lexer;
pub mod parser;
pub mod env;
pub mod eval;
pub mod laws;
pub mod print;

pub use exp::{LangExp, LangErr, LangProc, SpecExp, SpecErr};
pub use env::LangEnv;
