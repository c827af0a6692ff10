//! A doubly linked list.

pub mod fire;
