//! Turning tokens into statements.
pub mod expr;
pub mod parser;
pub mod stmt;

pub use expr::{BinaryOp, Expr, UnaryOp};
pub use parser::{LocatedStmt, Parser};
pub use stmt::Stmt;
