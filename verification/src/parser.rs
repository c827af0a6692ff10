//! Reading a text into the typed tree.

pub mod main;
pub mod parser;
