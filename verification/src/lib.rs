//! A small toolchain for the r0 language: the s0 bytecode, a code generator
//! that lowers a typed syntax tree to it, and a stack machine that runs it.

pub mod codegen;
pub mod error;
pub mod opcodes;
pub mod s0;
pub mod syntax;
pub mod util;
pub mod vm;
