//! From text to tokens, from tokens to a tree, and the walk over that tree.

pub mod lexer;
pub mod parser;
pub mod traverser;
