//! The front end of a small expression-and-function language: a verified
//! tokenizer and a verified incremental, resumable parser.
//!
//! Source text becomes a stream of [`lexer::Token`]s; the parser consumes a
//! token buffer and appends [`ast::ASTNode`]s to a caller-owned list,
//! reporting for each construct either success, a structural fault, or that
//! more input is needed before the construct can be finished.

pub mod ast;
pub mod laws;
pub mod lexer;
pub mod parser;
