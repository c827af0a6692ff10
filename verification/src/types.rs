//! The typed tree that a text is read into, and the typed accessors.

pub mod types;
