//! A small register-based virtual machine together with the assembler that
//! produces its bytecode.
//!
//! The machine interprets a growable byte buffer of fixed-layout instructions
//! over a file of 256 signed 64-bit registers, a program counter, and one
//! comparison flag.  The assembler turns mnemonic text into that byte format
//! in two stages: a lexer that yields typed tokens and an emitter that
//! appends each token's encoding to the engine's program buffer.  Hosts can
//! extend the instruction set through a table of syscall handlers consulted
//! by the `SYS` instruction.

pub mod assembler;
pub mod lexer;
pub mod opcode;
pub mod parser;
pub mod semantics;
pub mod vm;

pub use opcode::OpCode;
