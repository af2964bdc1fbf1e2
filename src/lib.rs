//! A small stack machine: an assembler for its textual instruction language,
//! a decoder for the binary modules that the assembler writes, and an
//! interpreter that runs them.
//!
//! - `opcode`: the instruction catalog and the operand each opcode carries.
//! - `bytes`: little-endian integers.
//! - `source`, `number`, `mnemonic`, `scanner`: reading assembly source.
//! - `assembler`: label resolution and the module writer.
//! - `decode`: reading a code section back into instructions.
//! - `machine`: the machine state and one step of it, as mathematics.
//! - `args`, `interpreter`: the executing machine.
//! - `host`: a syscall host that keeps a debug log.
//! - `laws`: properties that tie the parts together.
pub mod opcode;
pub mod bytes;
pub mod source;
pub mod number;
pub mod assembler;
pub mod mnemonic;
pub mod scanner;
pub mod decode;
pub mod args;
pub mod machine;
pub mod interpreter;
pub mod host;
pub mod laws;
