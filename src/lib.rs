//! Verified core of an AST-aware code search and extraction tool: the
//! tokenizer, query lexing and compilation into plans, term lookup and
//! candidate lines, syntax-tree block resolution (Go), extraction of line
//! ranges, block deduplication and merging, result budgets, and the session
//! cache with its file format.

mod text;
pub mod cli;
pub mod syntax;
pub mod language;
pub mod symbols;
pub mod outline;
pub mod search;
pub mod blocks;
pub mod extract;
pub mod filespec;
pub mod tokenize;
pub mod lexer;
pub mod compile;
pub mod query;
pub mod limiter;
pub mod session;
