//! A CHIP-8 interpreter core: registers, memory and call stack with a
//! fetch-decode-execute cycle, and a 64 by 32 XOR-blitting screen.

pub mod cpu;
pub mod display;
pub mod laws;
