//! Query expressions: syntax tree, parser, evaluation, rendering.

pub mod ast;
pub mod eval;
pub mod float_text;
pub mod parser;
pub mod render;
pub mod syntax;

pub use ast::{Expr, Literal, Op, Pattern};
pub use parser::{parse, QueryParseError};
