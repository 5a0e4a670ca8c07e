//! A small expression language: numeric literals, arithmetic, `let`
//! bindings and user-defined functions.
//!
//! Source text is parsed into an [`Expr`] tree ([`parse`]), and the tree is
//! lowered by [`evaluate`] into a straight-line [`Program`] of arithmetic
//! steps, in the order in which a tree-walking interpreter performs them,
//! with the same outcome when a name is missing or a call has the wrong
//! number of arguments. Running those steps on 64-bit floats gives the
//! program's value.

pub mod ast;
pub mod eval;
pub mod parse;

pub use ast::{BinOp, Expr, SExpr};
pub use eval::{evaluate, EvalError, Fault, Op, Program, Term, MAX_CALL_DEPTH};
pub use parse::{parse, parse_chars, SyntaxError};
