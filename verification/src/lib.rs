//! A YOLOL chip engine: one line of bytecode per tick, over the values of `yolol_devices`.

pub mod ast;
pub mod balance;
pub mod compiler;
pub mod evaluation;
pub mod instruction;
pub mod interner;
pub mod kinds;
pub mod lexer;
pub mod optimizer;
pub mod parser;
pub mod progress;
pub mod runner;
pub mod value;
pub mod vm;
