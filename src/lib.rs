//! A minimal instruction-set simulator: a 32-bit instruction word format, an
//! assembler for a small mnemonic syntax, and a fetch-decode-execute engine
//! over a register file and a word-addressed memory.

pub mod assembler;
pub mod codec;
pub mod machine;
pub mod operand;
pub mod text;
