//! The fatal conditions a cycle can surface. Every operation of the core
//! either fully succeeds, producing a complete new state, or aborts the whole
//! cycle with one of these.

use vstd::prelude::*;

verus! {

/// Why a cycle or a load was refused.
#[derive(Clone, Copy, Debug, PartialEq, Eq)]
pub enum Chip8Error {
    /// The fetched word matches none of the recognized opcode shapes; carries
    /// the offending word and the program counter it was fetched from.
    Decode { opcode: u16, pc: u16 },
    /// A memory, stack, key or register access would leave its fixed array;
    /// carries the faulting address or index.
    Bounds { addr: u32 },
    /// A program image larger than the memory left above the program start;
    /// carries the offending byte count.
    Load { len: usize },
}

} // verus!
