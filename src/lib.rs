//! A single-pass scanner for literal values (`Nil`, `True`, `False`, integers
//! and strings) separated by whitespace and `#` line comments, together with a
//! small parser for the unit expression `()`.
//!
//! Every scanner receives the one character of lookahead that its caller has
//! already pulled from the input and hands back the next unconsumed character,
//! so no character is read twice and none is buffered beyond that lookahead.
//! What each scanner computes is stated in [`grammar`]; [`laws`] proves what
//! follows from it.
pub mod class;
pub mod error;
pub mod expr;
pub mod grammar;
pub mod laws;
pub mod scan;
pub mod source;
pub mod value;
pub mod wrap;

pub use error::{ErrView, Expected, ParseErr};
pub use expr::{parse, Expr};
pub use source::Source;
pub use value::Val;
