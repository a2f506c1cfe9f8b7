//! A compiler for a small expression language with tagged integers and
//! booleans: gradual type checker, code generator over an abstract
//! instruction model, lowering plans for a run-time assembler, and the state
//! of an interactive session.

pub mod ast;
pub mod closure;
pub mod compiler;
pub mod env;
pub mod helpers;
pub mod instr;
pub mod jit;
pub mod machine;
pub mod parser;
pub mod repl;
pub mod text;
pub mod typechecker;
