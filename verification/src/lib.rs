//! A verified evaluator front end for textual arithmetic expressions.
//!
//! The crate turns an expression string (numeric literals, named constants,
//! the operators `+ - * / ^ !`, parenthesised and quoted groups, and
//! fixed-arity named function calls) into a structured expression tree, or
//! into a precisely located syntax error. Every structural decision is
//! specified by spec functions and proved about the executable code.

pub mod ast;
pub mod errors;
pub mod helpers;
pub mod laws;
pub mod literal;
pub mod numeral;
pub mod parser;

pub use ast::{BinOp, Expr, Func1, Func2, MathConst};
pub use errors::SpecSyntaxError;
pub use errors::SyntaxError;
pub use helpers::find_closing_parenthesis;
pub use helpers::find_nth_comma;
pub use helpers::is_function_call;
pub use parser::parse;
