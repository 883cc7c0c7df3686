//! A small toolchain for the stack language L1: a front end that parses
//! expressions and statements, a code generator that lowers the syntax
//! tree to textual assembly while modeling the runtime stack, a two-pass
//! assembler that resolves labels and interns oversized constants into a
//! pool, a stack virtual machine that executes the resulting bytecode
//! with channelled output, and a tree-walking evaluator for reference
//! evaluation.

pub mod ast;
pub mod bytecode;
pub mod codegen;
pub mod eval;
pub mod parser;
pub mod text;
pub mod assembly;
