//! A tokenizer for a small POSIX-shell-like command language.
//!
//! The scanner turns source text into operators, reserved words and plain
//! words. Its behaviour is stated over `Seq<char>` by the spec functions of
//! [`lexer`], and the general laws of that tokenization are proved in [`laws`].

pub mod charclass;
pub mod lexer;
pub mod laws;

pub use lexer::{LexError, Lexer, Token};
