//! Utilities for code generation

use crate::text::max_for_bits;
use vstd::prelude::*;

verus! {

/// The two bytes of a 16-bit value, high byte first
pub open spec fn halves(val: u16) -> Seq<u8> {
    seq![(val / 256) as u8, (val % 256) as u8]
}

/// The instruction word of family `class` with the address `nnn` of twelve bits
pub open spec fn opcode_nnn(class: int, nnn: u16) -> u16 {
    (class * 4096 + nnn) as u16
}

/// The instruction word of family `class` with the register `x` and the byte `kk`
pub open spec fn opcode_xkk(class: int, x: int, kk: int) -> u16 {
    (class * 4096 + x * 256 + kk) as u16
}

/// The instruction word of family `class` with the registers `x` and `y` and the nibble `n`
pub open spec fn opcode_xyn(class: int, x: int, y: int, n: int) -> u16 {
    (class * 4096 + x * 256 + y * 16 + n) as u16
}

/// The widths of the operands, in numbers
pub proof fn lemma_operand_widths()
    ensures
        max_for_bits(4) == 0xF,
        max_for_bits(8) == 0xFF,
        max_for_bits(12) == 0xFFF,
        max_for_bits(16) == 0xFFFF,
{
    vstd::arithmetic::power2::lemma2_to64();
}

proof fn lemma_split(val: u16)
    by (bit_vector)
    ensures
        val >> 8 == val / 256,
        val & 0xFF == val % 256,
{
}

proof fn lemma_fields(class: u16, x: u16, y: u16, n: u16)
    by (bit_vector)
    requires
        class <= 0xF,
        x <= 0xF,
        y <= 0xF,
        n <= 0xF,
    ensures
        (class << 12) | (x << 8) | (y << 4) | n == class * 4096 + x * 256 + y * 16 + n,
        class << 12 == class * 4096,
{
}

proof fn lemma_address_field(class: u16, nnn: u16)
    by (bit_vector)
    requires
        class <= 0xF,
        nnn <= 0xFFF,
    ensures
        (class << 12) | nnn == class * 4096 + nnn,
{
}

proof fn lemma_byte_field(class: u16, x: u16, kk: u16)
    by (bit_vector)
    requires
        class <= 0xF,
        x <= 0xF,
        kk <= 0xFF,
    ensures
        (class << 12) | (x << 8) | kk == class * 4096 + x * 256 + kk,
{
}

/// Split a 16-bit value into a vector of two bytes
pub fn split_u16(val: u16) -> (bytes: Vec<u8>)
    ensures
        bytes@ == halves(val),
{
    proof {
        lemma_split(val);
    }
    let bytes: Vec<u8> = vec![(val >> 8) as u8, (val & 0xFF) as u8];
    assert(bytes@ =~= halves(val));
    bytes
}

/// The bytes of the instruction of family `class` with the address `nnn`
pub fn encode_nnn(class: u16, nnn: u16) -> (bytes: Vec<u8>)
    requires
        class <= 0xF,
        nnn <= 0xFFF,
    ensures
        bytes@ == halves(opcode_nnn(class as int, nnn)),
{
    proof {
        lemma_address_field(class, nnn);
    }
    split_u16((class << 12) | nnn)
}

/// The bytes of the instruction of family `class` with the register `x` and the byte `kk`
pub fn encode_xkk(class: u16, x: u16, kk: u16) -> (bytes: Vec<u8>)
    requires
        class <= 0xF,
        x <= 0xF,
        kk <= 0xFF,
    ensures
        bytes@ == halves(opcode_xkk(class as int, x as int, kk as int)),
{
    proof {
        lemma_byte_field(class, x, kk);
    }
    split_u16((class << 12) | (x << 8) | kk)
}

/// The bytes of the instruction of family `class` with the registers `x` and `y` and the nibble `n`
pub fn encode_xyn(class: u16, x: u16, y: u16, n: u16) -> (bytes: Vec<u8>)
    requires
        class <= 0xF,
        x <= 0xF,
        y <= 0xF,
        n <= 0xF,
    ensures
        bytes@ == halves(opcode_xyn(class as int, x as int, y as int, n as int)),
{
    proof {
        lemma_fields(class, x, y, n);
    }
    split_u16((class << 12) | (x << 8) | (y << 4) | n)
}

} // verus!
