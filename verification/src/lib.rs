//! A CHIP-8 virtual machine core: an 8-bit CPU with 4KB of memory, sixteen
//! general registers, a 64x32 monochrome frame buffer, delay/sound timers and
//! a call stack, together with a bounded history buffer that allows execution
//! to be rewound cycle by cycle.

pub mod chip8;
pub mod constants;
pub mod error;
pub mod instruction;
pub mod opcode;
pub mod state;
