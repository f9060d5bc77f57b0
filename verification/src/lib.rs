//! A small expression language compiled to bytecode and run on a stack machine.

pub mod ast;
pub mod balance;
pub mod compiler;
pub mod error;
pub mod grammar;
pub mod laws;
pub mod parser;
pub mod progress;
pub mod semantics;
pub mod text;
pub mod tokenizer;
pub mod types;
pub mod vm;
