//! A small compiler for a C-like language: abstract syntax, name resolution,
//! type inference, lowering to a stack bytecode, and a bytecode interpreter.
use vstd::prelude::*;

pub mod common;
pub mod bytecode;
pub mod vm;
pub mod input;
pub mod diagnostic;
pub mod ast;
pub mod tp;
pub mod resolve;
pub mod typing;
pub mod driver;
pub mod lowerer;
pub mod codegen;
pub mod listing;
