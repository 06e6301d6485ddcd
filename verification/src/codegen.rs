//! The code generator: from the syntax tree of a program to an s0 module.

pub mod code;
pub mod err;
pub mod index;
pub mod ty;
pub mod scope;
pub mod generator;
