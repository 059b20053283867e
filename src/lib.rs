//! An engine for annotations on a data structure's API: a block parser that
//! recovers the nested brace structure of an annotation document, a small
//! expression language (tokenizer, rewriting into postfix order, evaluation
//! against an environment of named values), and readers for the `Does`,
//! `Warn` and `Deny` sections of each annotated call.

pub mod call;
pub mod env;
pub mod error;
pub mod expr;
pub mod lexer;
pub mod model;
pub mod parser;
pub mod program;
pub mod rpn;
pub mod text;

pub use call::{Call, DataStruct};
pub use env::{evaluate_rpn, Environment};
pub use error::EngineError;
pub use expr::{ArityAndTypes, Constant, EvaluableExpr, Identifier, Operator, Token, VariableType};
pub use model::{compile_expression, split_fields, Assignement, Deny, MetaData, Warning};
pub use parser::{fill_blanks, parse_bracketed, BlockContent, Bracketed, FileLine};
pub use program::{Program, ProgramVariable};
pub use rpn::expr_tokens_to_rpn;
