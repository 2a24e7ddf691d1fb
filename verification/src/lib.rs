//! A CHIP-8 toolchain: a two-pass symbolic assembler, a disassembler and the
//! core of an interpreter, each stated as a mathematical model and proved to
//! follow it.

pub mod assembler;
pub mod disassembler;
pub mod interpreter;
pub mod opcode;
pub mod roundtrip;
pub mod text;
