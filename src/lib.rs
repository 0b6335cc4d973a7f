//! A lexer and parser for a small USD-style ASCII scene format: source
//! bytes become tokens, then a tree of `def` blocks and decoded array
//! attributes.

pub mod token;
pub mod lexer;
pub mod array;
pub mod define;
pub mod attribute;
pub mod laws;
