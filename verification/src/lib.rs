//! Front end of a small C-like expression language: a scanner that turns
//! source text into a line-annotated token sequence (collecting lexical
//! diagnostics on the side), a recursive-descent parser that builds an
//! abstract syntax tree respecting operator precedence and associativity,
//! and a visitor-based printer that renders the tree as a parenthesized
//! prefix string.
//!
//! Number literals are modeled as exact decimal digit strings and render in
//! canonical form (no redundant leading zeros in the integer part, no
//! trailing zeros in the fraction, no bare trailing dot). This is the
//! externally observable number formatting choice of this crate.

pub mod token;
pub mod scanner;
pub mod syntax;
pub mod parser;
pub mod lox;
