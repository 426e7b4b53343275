//! A small domain-specific language toolchain: a type-and-effect checker that
//! lifts parsed programs to typed programs with a sorted capability manifest,
//! and a deterministic interpreter that produces a replay log with a stable
//! 64-bit digest.

pub mod ast;
pub mod capability;
pub mod error;
pub mod manifest;
pub mod parser;
pub mod replay;
pub mod runtime;
pub mod tools;
pub mod text;
pub mod typecheck;
