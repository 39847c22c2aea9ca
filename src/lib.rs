//! Parser for a small HTML-like markup language, and an analyzer that
//! makes sure that the start and end tags of every element agree.
pub mod analyzer;
pub mod chars;
pub mod grammar;
pub mod laws;
pub mod parser;
pub mod tree;
