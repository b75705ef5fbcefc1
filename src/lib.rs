//! A virtual machine for a 16-bit-opcode, byte-addressable toy architecture,
//! together with a two-pass assembler for its mnemonic language.

pub mod cartridge;
pub mod cpu;
pub mod display;
pub mod instruction;
pub mod interpreter;
pub mod ram;
pub mod text;
