//! A bytecode execution engine: a compact instruction encoding, a constant
//! pool, a run-length line table, a disassembler and a stack machine.

pub mod chunk;
pub mod debug;
pub mod emission;
pub mod opcode;
pub mod value;
pub mod vm;
