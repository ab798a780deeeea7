//! A verified CHIP-8 virtual machine: a 4KB byte-addressable memory, a
//! 64x32 monochrome display, a 16-key keypad, and a CPU that fetches,
//! decodes and executes the 35-instruction CHIP-8 opcode set.

pub mod cpu;
pub mod display;
pub mod keypad;
pub mod laws;
pub mod memory;
