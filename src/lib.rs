//! A small interpreter for a typed scripting language with integers, strings
//! and booleans, `if`/`else`, `while`, and console input and output.
//!
//! Text is handled as sequences of `char`. The tokenizer turns source text into
//! a token vector; the evaluators and the statement machine walk that vector
//! with plain indices, so captured conditions and loop bodies are index ranges.
pub mod token;
pub mod lexer;
pub mod scope;
pub mod text;
pub mod env;
pub mod eval;
pub mod interp;
pub mod laws;
