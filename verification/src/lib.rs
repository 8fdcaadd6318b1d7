//! A minimal scripting pipeline: a byte-wise lexer, a one-pass compiler
//! that turns statements into fixed-width instructions over a deduplicated
//! constant pool, and a stack-based virtual machine with a global table.
//!
//! `lex` scans bytes to tokens, `parse` compiles tokens to a program —
//! a constant pool beside an instruction list — and `vm` executes a
//! program, collecting the printed values for the host to render. The
//! semantics of each stage is a spec function (`scan_ok`, `sp_stmts`,
//! `sp_run`), and each stage's contract says it computes exactly that.

pub mod bytecode;
pub mod error;
pub mod lex;
pub mod parse;
pub mod value;
pub mod vm;
