//! Evaluation core of a small, dynamically typed expression language:
//! a value model, a scope chain, an error taxonomy, a resolver and the
//! built-in functions `size`, `contains`, `has` and `map`.
pub mod ast;
pub mod context;
pub mod error;
pub mod functions;
pub mod laws;
pub mod resolver;
pub mod semantics;
pub mod text;
pub mod value;

pub use ast::{ArithmeticOp, Atom, Expression, RelationOp};
pub use context::Context;
pub use error::ExecutionError;
pub use value::{CelType, Key};
