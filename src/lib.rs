//! Execution core of a small dynamically typed scripting language: a lexical
//! scanner, a bytecode container with its line table and constant pool, and a
//! stack-based virtual machine that runs such containers.

pub mod scanner;
pub mod compiler;
pub mod value;
pub mod chunk;
pub mod vm;
pub mod debug;
