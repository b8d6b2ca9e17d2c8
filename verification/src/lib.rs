//! A single-pass expression compiler and stack-based bytecode virtual
//! machine: a textual arithmetic expression becomes a compact instruction
//! stream (a [`chunk::Chunk`]), which the [`vm::VM`] then executes.
//!
//! The pipeline is lex ([`scanner`]) -> parse-and-emit ([`compiler`]) ->
//! store as bytecode ([`chunk`], [`opcode`]) -> interpret ([`vm`]), with a
//! read-only pretty-printer ([`debug`]) over the stored form.  The
//! scanner and the compiler are specified exactly: `scanner::spec_scan`
//! is the one token stream a source has, `compiler::sp_compile` the one
//! compilation, and the executable code is proved to follow them step by
//! step.
//!
//! Numbers live in the machine as IEEE-754 bit patterns ([`value::Value`])
//! that this crate stores, indexes and moves but never interprets: the
//! driver converts literals to values and performs the arithmetic the
//! virtual machine requests one step at a time.

pub mod chunk;
pub mod compiler;
pub mod debug;
pub mod opcode;
pub mod scanner;
mod text;
pub mod token;
pub mod value;
pub mod vm;
