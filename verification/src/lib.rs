//! A simulator for RV32E-16B: RISC-V RV32E over a memory of 16-bit cells.
//!
//! - `isa`: what instruction fields and ALU operations mean as arithmetic
//! - `decode`: instruction words to instructions
//! - `encode`: the instruction formats, and decoding read back from encoding
//! - `instruction_laws`: what each instruction does, as properties of its results
//! - `registers`, `memory`: the register file and the cell memory
//! - `cpu`: the machine, one step of execution and runs of steps
//! - `loader`: program images from ELF files and flat binaries
//! - `parse`: numbers given on the command line
//! - `runtime`: routines that programs on the machine use to print numbers

pub mod cpu;
pub mod decode;
pub mod encode;
pub mod instruction_laws;
pub mod isa;
pub mod loader;
pub mod memory;
pub mod parse;
pub mod registers;
pub mod runtime;
