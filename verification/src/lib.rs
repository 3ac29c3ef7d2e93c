//! An interpreter for a small expression language with first-class
//! functions: a scanner, a parser by operator precedence, and an evaluator
//! over chained scopes, each proved against a definition of what it
//! computes.
//!
//! - `token`, `lexer`: tokens, and the scanner that reads them out of text.
//! - `ast`, `grammar`, `parser`: the syntax tree, the grammar as functions
//!   on token sequences, and the parser that is proved to follow it.
//! - `object`, `semantics`, `evaluator`: runtime values and scopes, the
//!   meaning of programs, and the evaluator that is proved to compute it.
//! - `printer`, `writer`, `round_trip`: the way back from a tree to text,
//!   and the proof that the scanner and the grammar read the tree out of
//!   the text again.
//! - `arithmetic`: 64-bit arithmetic that wraps around.
//! - `laws`: what holds of every program of a given shape.
//! - `repl`: from source text to values, for a file runner or a shell.

pub mod arithmetic;
pub mod ast;
pub mod evaluator;
pub mod grammar;
pub mod laws;
pub mod lexer;
pub mod object;
pub mod parser;
pub mod printer;
pub mod repl;
pub mod round_trip;
pub mod semantics;
pub mod token;
pub mod writer;
