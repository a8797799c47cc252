//! Lexer and recursive-descent parser for the Monkey scripting language.
//!
//! The lexer turns source text into tokens one at a time; the parser pulls
//! those tokens through a two-token window and builds a program tree. Each
//! step is stated against a mathematical model: `lexer::scan` gives the token
//! that scanning yields at an offset, and the functions of `grammar` give the
//! program that a token sequence denotes.
use vstd::prelude::*;

pub mod ast;
pub mod grammar;
pub mod lexer;
pub mod parser;
pub mod token;
