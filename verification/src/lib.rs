//! A bytecode virtual machine for the Lox language: bytecode chunks, source maps,
//! tokens, scopes and the heap, each with its contracts.
pub mod byte_code;
pub mod codemap;
pub mod decimal;
pub mod gc;
pub mod interpreter;
pub mod interner;
pub mod lexer;
pub mod object;
pub mod parser;
pub mod stats;
pub mod value;
pub mod vm;
