//! The syntax tree of r0 programs, and the parser that builds it from tokens.

pub mod ast;
pub mod grammar;
pub mod parser;
pub mod span;
pub mod token;
pub mod util;
pub mod view;
