//! An interpreter for a small esoteric language whose instructions are
//! two-word phrases. The pipeline: the program text is split into phrases,
//! the phrases are resolved to an instruction sequence with a jump map for
//! the loop brackets, and a program-counter loop executes the instructions
//! against an infinite-tape integer-cell machine.

pub mod engine;
pub mod parser;
pub mod tape;
