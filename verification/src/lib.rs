//! A small imperative language, from source text to a run: a tokenizer, a recursive-descent
//! parser, a scope analyzer and a tree-walking evaluator, each verified against a
//! mathematical description of what it computes.
//!
//! - `tokens`, `mtree`: the tokens and the syntax tree, with their views.
//! - `lexer`: characters to tokens.
//! - `grammar`, `parser`, `descent_parser`: tokens to a tree; `shape` and `printer` state
//!   what trees a parse yields and that writing a tree as tokens and parsing it again gives
//!   the same tree.
//! - `analyzer`: the uses of undeclared names; `scoping` states what its findings mean.
//! - `evaluator`: the run of a program; `budget`, `effects` and `agreement` state what
//!   holds of every run.
//! - `pipeline`: the stages put together.
pub mod text;
pub mod tokens;
pub mod mtree;
pub mod lexer;
pub mod grammar;
pub mod parser;
pub mod descent_parser;
pub mod shape;
pub mod printer;
pub mod analyzer;
pub mod scoping;
pub mod evaluator;
pub mod budget;
pub mod effects;
pub mod agreement;
pub mod pipeline;
