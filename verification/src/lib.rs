//! Disassembler for EVM bytecode supplied as whitespace-tolerant hexadecimal
//! text.
//!
//! The library decodes a stream of hex characters into a sequence of typed
//! instruction values and renders each instruction as a single line of
//! lowercase text. Reading the input source and printing the rendered lines
//! are left to the caller.

pub mod disassembler;
pub mod hex;
pub mod instruction;
pub mod laws;
