//! Core of a bytecode toolchain for a stack machine whose values double as
//! zero-knowledge-circuit witnesses: the instruction catalogue with its binary
//! codec, a virtual machine that executes natively while recording arithmetic
//! constraints, integer-literal bit-length inference, and the small syntax
//! helpers that feed the code generator.

pub mod value;
pub mod instruction;
pub mod vlq;
pub mod codec;
pub mod backend;
pub mod vm;
pub mod inference;
pub mod syntax;
pub mod match_builder;
pub mod list_analyzer;
pub mod semantic;
