//! Lexical-analysis front end for a small C-like scripting language:
//! a scanner that turns source text into a line-annotated token stream,
//! together with its token data model, keyword table and diagnostic
//! collector.  Token lexemes are owned copies of the consumed source
//! slices, so tokens outlive the source buffer they were scanned from.

pub mod error_handling;
pub mod lox;
pub mod scanner;
pub mod syntax_tree;
