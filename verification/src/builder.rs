//! Building a document from native values and rendering it as compact text.

pub mod types;
pub mod value;
pub mod array;
pub mod object;
pub mod convert;
pub mod parser;
pub mod component;
pub mod main;
