//! A verified lexical scanner and recursive-descent parser for SQL `SELECT`
//! statements: a character-level source scanner, a tokenizer built on it, and
//! a parser that resolves qualified column references and nested subqueries.

pub mod string_buf;
pub mod keyword;
pub mod number;
pub mod tokenizer;
pub mod parser;
pub mod laws;
