//! The opcode decoder: a raw 16-bit instruction word together with views of
//! its four nibbles and of the derived fields (address, byte literal,
//! register indices, nibble count). Decoding is total; whether a word is a
//! recognized instruction is decided only by dispatch.

use vstd::prelude::*;

verus! {

/// First (highest) nibble of an instruction word.
pub open spec fn op_nib0(w: u16) -> u8 {
    ((w >> 12) & 0xF) as u8
}

/// Second nibble of an instruction word.
pub open spec fn op_nib1(w: u16) -> u8 {
    ((w >> 8) & 0xF) as u8
}

/// Third nibble of an instruction word.
pub open spec fn op_nib2(w: u16) -> u8 {
    ((w >> 4) & 0xF) as u8
}

/// Fourth (lowest) nibble of an instruction word.
pub open spec fn op_nib3(w: u16) -> u8 {
    (w & 0xF) as u8
}

/// The address field: the low 12 bits.
pub open spec fn op_addr(w: u16) -> u16 {
    w & 0x0FFF
}

/// The byte-literal field: the low 8 bits.
pub open spec fn op_kk(w: u16) -> u8 {
    (w & 0xFF) as u8
}

/// The first register-index field: bits 8-11.
pub open spec fn op_x(w: u16) -> u8 {
    op_nib1(w)
}

/// The second register-index field: bits 4-7.
pub open spec fn op_y(w: u16) -> u8 {
    op_nib2(w)
}

/// The nibble-count field: bits 0-3.
pub open spec fn op_n(w: u16) -> u8 {
    op_nib3(w)
}

/// Every nibble field is below 16 and the address field below 4096; each
/// nibble as a wide word equals the masked shift it was cut from.
pub proof fn lemma_op_field_bounds(w: u16)
    ensures
        op_nib0(w) < 16,
        op_nib1(w) < 16,
        op_nib2(w) < 16,
        op_nib3(w) < 16,
        op_x(w) < 16,
        op_y(w) < 16,
        op_n(w) < 16,
        op_addr(w) < 4096,
        op_nib0(w) as u16 == (w >> 12) & 0xF,
        op_nib1(w) as u16 == (w >> 8) & 0xF,
        op_nib2(w) as u16 == (w >> 4) & 0xF,
        op_nib3(w) as u16 == w & 0xF,
{
    assert((w >> 12) & 0xF < 16) by (bit_vector);
    assert((w >> 8) & 0xF < 16) by (bit_vector);
    assert((w >> 4) & 0xF < 16) by (bit_vector);
    assert(w & 0xF < 16) by (bit_vector);
    assert(w & 0x0FFF < 4096) by (bit_vector);
}

/// A 16-bit instruction word.
#[derive(Clone, Copy, Debug, PartialEq, Eq, Structural)]
pub struct Opcode {
    pub word: u16,
}

impl Opcode {
    /// Wraps a raw instruction word.
    pub fn new(word: u16) -> (op: Opcode)
        ensures
            op.word == word,
    {
        Opcode { word }
    }

    /// The four nibbles of the word, highest first.
    pub fn nibbles(&self) -> (r: (u8, u8, u8, u8))
        ensures
            r.0 == op_nib0(self.word),
            r.1 == op_nib1(self.word),
            r.2 == op_nib2(self.word),
            r.3 == op_nib3(self.word),
    {
        (
            ((self.word >> 12) & 0xF) as u8,
            ((self.word >> 8) & 0xF) as u8,
            ((self.word >> 4) & 0xF) as u8,
            (self.word & 0xF) as u8,
        )
    }

    /// The address field: the low 12 bits.
    pub fn addr(&self) -> (r: u16)
        ensures
            r == op_addr(self.word),
            r < 4096,
    {
        proof {
            lemma_op_field_bounds(self.word);
        }
        self.word & 0x0FFF
    }

    /// The byte-literal field: the low 8 bits.
    pub fn kk(&self) -> (r: u8)
        ensures
            r == op_kk(self.word),
    {
        (self.word & 0xFF) as u8
    }

    /// The first register-index field: bits 8-11.
    pub fn x(&self) -> (r: u8)
        ensures
            r == op_x(self.word),
            r < 16,
    {
        proof {
            lemma_op_field_bounds(self.word);
        }
        ((self.word >> 8) & 0xF) as u8
    }

    /// The second register-index field: bits 4-7.
    pub fn y(&self) -> (r: u8)
        ensures
            r == op_y(self.word),
            r < 16,
    {
        proof {
            lemma_op_field_bounds(self.word);
        }
        ((self.word >> 4) & 0xF) as u8
    }

    /// The nibble-count field: bits 0-3.
    pub fn n(&self) -> (r: u8)
        ensures
            r == op_n(self.word),
            r < 16,
    {
        proof {
            lemma_op_field_bounds(self.word);
        }
        (self.word & 0xF) as u8
    }
}

} // verus!
