//! A query engine for delimiter-separated tabular text.
//!
//! A query is a pipeline of stages (`select`, `where`, `enum`, `sort`,
//! `trim`, `behead`) separated by `|`. The text of a query is parsed into a
//! parse tree, the tree is built into a typed command sequence, and the
//! command sequence is run over a table whose first row names the columns.
pub mod ast;
pub mod grammar;
pub mod operators;
pub mod pattern;
pub mod record;
pub mod text;
