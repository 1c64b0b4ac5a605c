//! A single-pass Forth cross-compiler that lowers Forth source into
//! threaded-code assembly for a 32-bit AT&T assembler or a 6502 assembler.
//!
//! The input is a stack of in-memory sources (`input`), tokens are classified
//! by `words`, the driver (`driver`) turns them into directives (`gen::Op`),
//! and a backend (`gen::AttGen`, `gen::Ca6502`) renders each directive as text.

pub mod text;
pub mod symbols;
pub mod gen;
pub mod input;
pub mod words;
pub mod effects;
pub mod driver;
pub mod laws;
