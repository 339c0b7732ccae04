pub mod ast;
pub mod eval;
pub mod parse;
pub mod store;

pub use crate::ast::Expr;
