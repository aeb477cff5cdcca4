//! A small Lisp: a reader, an evaluator with lexical scopes and closures, and
//! the procedures of the language.
//!
//! A text is read into an `Expression` by `parse`, and an expression is
//! evaluated in an `Environment` by `eval`. What goes wrong in an evaluation
//! comes back as an `Error` value; only a text that is no expression is
//! refused, with a `SyntaxError`.
pub mod builtins;
pub mod environment;
pub mod eval;
pub mod expression;
pub mod float;
pub mod laws;
pub mod parse;
pub mod roundtrip;
pub mod text;

pub use crate::builtins::builtins;
pub use crate::environment::Environment;
pub use crate::environment::EnvironmentError;
pub use crate::eval::eval;
pub use crate::eval::eval_in;
pub use crate::eval::evaluate;
pub use crate::expression::Builtin;
pub use crate::expression::Expression;
pub use crate::parse::parse;
pub use crate::parse::SyntaxError;
