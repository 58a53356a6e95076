//! A parser for a small SQL dialect that reports the furthest point it
//! reached when a statement is rejected.

pub mod ast;
pub mod error;
pub mod expr;
pub mod paint;
pub mod parser;
pub mod text;
pub mod token;

pub use ast::{Query, SelectStmt, Statement, With, CTE};
pub use error::ParseError;
pub use expr::{BinaryOp, Expr, Literal};
pub use parser::{parse_sql, parse_sql_to_string};
pub use token::{Token, TokenKind};
