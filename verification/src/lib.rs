//! A small instruction-set simulator for a 16/32-bit big-endian processor:
//! a two-pass text assembler that turns a subset of the mnemonic syntax into
//! 16-bit machine words, a flat byte-addressable memory, and a CPU that
//! fetches, decodes and executes those words one instruction at a time.

pub mod arith;
pub mod assembler;
pub mod cpu;
pub mod encode;
pub mod instruction;
pub mod labels;
pub mod laws;
pub mod memory;
pub mod syntax;
pub mod text;

pub use assembler::Assembler;
pub use cpu::CPU;
pub use memory::Memory;
