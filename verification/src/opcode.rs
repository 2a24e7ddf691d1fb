//! The fields of an instruction word.
//!
//! An instruction is a 16-bit word, stored high byte first. Its leading
//! nibble selects the family; the other nibbles hold register indices and
//! immediate operands.

use vstd::prelude::*;

verus! {

/// The leading nibble, which selects the family of the instruction
pub open spec fn op_class(opcode: u16) -> int {
    opcode as int / 4096
}

/// `x`: the second nibble, a register index
pub open spec fn op_x(opcode: u16) -> int {
    (opcode as int / 256) % 16
}

/// `y`: the third nibble, a register index
pub open spec fn op_y(opcode: u16) -> int {
    (opcode as int / 16) % 16
}

/// `n`: the last nibble
pub open spec fn op_n(opcode: u16) -> int {
    opcode as int % 16
}

/// `kk`: the low byte
pub open spec fn op_kk(opcode: u16) -> u8 {
    (opcode as int % 256) as u8
}

/// `nnn`: the low twelve bits, an address
pub open spec fn op_nnn(opcode: u16) -> u16 {
    (opcode as int % 4096) as u16
}

/// The masks and shifts that take an instruction word apart agree with the
/// arithmetic that defines its fields
pub proof fn lemma_opcode_fields(opcode: u16)
    by (bit_vector)
    ensures
        opcode >> 12 == opcode / 4096,
        (opcode >> 8) & 0xF == (opcode / 256) % 16,
        (opcode >> 4) & 0xF == (opcode / 16) % 16,
        opcode & 0xF == opcode % 16,
        opcode & 0xFF == opcode % 256,
        opcode & 0xFFF == opcode % 4096,
{
}

/// A word put together from two bytes, high byte first
pub proof fn lemma_word_from_bytes(high: u8, low: u8)
    by (bit_vector)
    ensures
        ((high as u16) << 8) | (low as u16) == high as u16 * 256 + low as u16,
{
}

} // verus!
