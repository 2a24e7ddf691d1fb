//! Converts CHIP-8 bytecode back into assembly code.
//!
//! The bytes are read as consecutive instruction words, high byte first.
//! Every word becomes a line: the instruction it encodes, or a `.word`
//! directive where it encodes none. A last byte without a partner becomes
//! a `.byte` directive. No labels are recovered.

use crate::opcode::{lemma_opcode_fields, lemma_word_from_bytes, op_class, op_kk, op_n, op_nnn, op_x, op_y};
use crate::text::{decimal, hex, push_decimal, push_hex};
use vstd::prelude::*;
use vstd::string::StringExecFns;

verus! {

/// The name of register `x`
pub open spec fn register(x: int) -> Seq<char> {
    "V"@ + hex(x as nat, 1)
}

/// The two operands `Vx, Vy` of an instruction word
pub open spec fn registers(opcode: u16) -> Seq<char> {
    register(op_x(opcode)) + ", "@ + register(op_y(opcode))
}

/// The two operands `Vx, 0xkk` of an instruction word
pub open spec fn register_and_byte(opcode: u16) -> Seq<char> {
    register(op_x(opcode)) + ", 0x"@ + hex(op_kk(opcode) as nat, 2)
}

/// The operand `0xnnn` of an instruction word
pub open spec fn address(opcode: u16) -> Seq<char> {
    "0x"@ + hex(op_nnn(opcode) as nat, 3)
}

/// A word that encodes no instruction, as data
pub open spec fn data_word(opcode: u16) -> Seq<char> {
    ".word 0x"@ + hex(opcode as nat, 4)
}

/// The line for an `8xy_` word
pub open spec fn decoded_arithmetic(opcode: u16) -> Seq<char> {
    let n = op_n(opcode);
    if n == 0x0 {
        "LD "@ + registers(opcode)
    } else if n == 0x1 {
        "OR "@ + registers(opcode)
    } else if n == 0x2 {
        "AND "@ + registers(opcode)
    } else if n == 0x3 {
        "XOR "@ + registers(opcode)
    } else if n == 0x4 {
        "ADD "@ + registers(opcode)
    } else if n == 0x5 {
        "SUB "@ + registers(opcode)
    } else if n == 0x6 {
        "SHR "@ + registers(opcode)
    } else if n == 0x7 {
        "SUBN "@ + registers(opcode)
    } else if n == 0xE {
        "SHL "@ + registers(opcode)
    } else {
        data_word(opcode)
    }
}

/// The line for an `Ex__` or `Fx__` word
pub open spec fn decoded_special(opcode: u16) -> Seq<char> {
    let vx = register(op_x(opcode));
    let kk = op_kk(opcode);
    if op_class(opcode) == 0xE {
        if kk == 0x9E {
            "SKP "@ + vx
        } else if kk == 0xA1 {
            "SKNP "@ + vx
        } else {
            data_word(opcode)
        }
    } else if kk == 0x07 {
        "LD "@ + vx + ", DT"@
    } else if kk == 0x0A {
        "LD "@ + vx + ", K"@
    } else if kk == 0x15 {
        "LD DT, "@ + vx
    } else if kk == 0x18 {
        "LD ST, "@ + vx
    } else if kk == 0x1E {
        "ADD I, "@ + vx
    } else if kk == 0x29 {
        "LD F, "@ + vx
    } else if kk == 0x33 {
        "LD B, "@ + vx
    } else if kk == 0x55 {
        "LD [I], "@ + vx
    } else if kk == 0x65 {
        "LD "@ + vx + ", [I]"@
    } else {
        data_word(opcode)
    }
}

/// The line of assembly for an instruction word: the mnemonic and the
/// operands of the instruction that the word encodes, with addresses and
/// bytes in hexadecimal, or a `.word` directive where it encodes none
#[verifier::opaque]
pub open spec fn decoded(opcode: u16) -> Seq<char> {
    let class = op_class(opcode);
    if opcode == 0x00E0 {
        "CLS"@
    } else if opcode == 0x00EE {
        "RET"@
    } else if class == 0x0 {
        "SYS "@ + address(opcode)
    } else if class == 0x1 {
        "JP "@ + address(opcode)
    } else if class == 0x2 {
        "CALL "@ + address(opcode)
    } else if class == 0x3 {
        "SE "@ + register_and_byte(opcode)
    } else if class == 0x4 {
        "SNE "@ + register_and_byte(opcode)
    } else if class == 0x5 {
        if op_n(opcode) == 0 {
            "SE "@ + registers(opcode)
        } else {
            data_word(opcode)
        }
    } else if class == 0x6 {
        "LD "@ + register_and_byte(opcode)
    } else if class == 0x7 {
        "ADD "@ + register_and_byte(opcode)
    } else if class == 0x8 {
        decoded_arithmetic(opcode)
    } else if class == 0x9 {
        if op_n(opcode) == 0 {
            "SNE "@ + registers(opcode)
        } else {
            data_word(opcode)
        }
    } else if class == 0xA {
        "LD I, "@ + address(opcode)
    } else if class == 0xB {
        "JP V0, "@ + address(opcode)
    } else if class == 0xC {
        "RND "@ + register_and_byte(opcode)
    } else if class == 0xD {
        "DRW "@ + registers(opcode) + ", "@ + decimal(op_n(opcode) as nat)
    } else {
        decoded_special(opcode)
    }
}

/// The assembly for a sequence of bytes: a line for each word, and a
/// `.byte` directive for a last byte without a partner
pub open spec fn disassembled(bytes: Seq<u8>) -> Seq<char>
    decreases bytes.len(),
{
    if bytes.len() == 0 {
        seq![]
    } else if bytes.len() == 1 {
        ".byte 0x"@ + hex(bytes[0] as nat, 2) + "\n"@
    } else {
        decoded((bytes[0] * 256 + bytes[1]) as u16) + "\n"@ + disassembled(bytes.skip(2))
    }
}

fn push_register(out: &mut String, x: u16)
    ensures
        final(out)@ == old(out)@ + register(x as int),
{
    out.append("V");
    push_hex(out, x, 1);
    assert(out@ =~= old(out)@ + register(x as int));
}

fn push_registers(out: &mut String, opcode: u16)
    ensures
        final(out)@ == old(out)@ + registers(opcode),
{
    proof {
        lemma_opcode_fields(opcode);
    }
    push_register(out, (opcode >> 8) & 0xF);
    out.append(", ");
    push_register(out, (opcode >> 4) & 0xF);
    assert(out@ =~= old(out)@ + registers(opcode));
}

fn push_register_and_byte(out: &mut String, opcode: u16)
    ensures
        final(out)@ == old(out)@ + register_and_byte(opcode),
{
    proof {
        lemma_opcode_fields(opcode);
    }
    push_register(out, (opcode >> 8) & 0xF);
    out.append(", 0x");
    push_hex(out, opcode & 0xFF, 2);
    assert(out@ =~= old(out)@ + register_and_byte(opcode));
}

fn push_address(out: &mut String, opcode: u16)
    ensures
        final(out)@ == old(out)@ + address(opcode),
{
    proof {
        lemma_opcode_fields(opcode);
    }
    out.append("0x");
    push_hex(out, opcode & 0xFFF, 3);
    assert(out@ =~= old(out)@ + address(opcode));
}

fn push_data_word(out: &mut String, opcode: u16)
    ensures
        final(out)@ == old(out)@ + data_word(opcode),
{
    out.append(".word 0x");
    push_hex(out, opcode, 4);
    assert(out@ =~= old(out)@ + data_word(opcode));
}

fn push_arithmetic(out: &mut String, opcode: u16)
    ensures
        final(out)@ == old(out)@ + decoded_arithmetic(opcode),
{
    proof {
        lemma_opcode_fields(opcode);
    }
    let mnemonic: &str = match opcode & 0xF {
        0x0 => "LD ",
        0x1 => "OR ",
        0x2 => "AND ",
        0x3 => "XOR ",
        0x4 => "ADD ",
        0x5 => "SUB ",
        0x6 => "SHR ",
        0x7 => "SUBN ",
        0xE => "SHL ",
        _ => {
            push_data_word(out, opcode);
            return ;
        },
    };
    out.append(mnemonic);
    push_registers(out, opcode);
    assert(out@ =~= old(out)@ + decoded_arithmetic(opcode));
}

fn push_special(out: &mut String, opcode: u16)
    requires
        op_class(opcode) >= 0xE,
    ensures
        final(out)@ == old(out)@ + decoded_special(opcode),
{
    proof {
        lemma_opcode_fields(opcode);
    }
    let x: u16 = (opcode >> 8) & 0xF;
    let kk: u16 = opcode & 0xFF;
    if opcode >> 12 == 0xE {
        if kk == 0x9E {
            out.append("SKP ");
            push_register(out, x);
        } else if kk == 0xA1 {
            out.append("SKNP ");
            push_register(out, x);
        } else {
            push_data_word(out, opcode);
        }
    } else if kk == 0x07 {
        out.append("LD ");
        push_register(out, x);
        out.append(", DT");
    } else if kk == 0x0A {
        out.append("LD ");
        push_register(out, x);
        out.append(", K");
    } else if kk == 0x15 {
        out.append("LD DT, ");
        push_register(out, x);
    } else if kk == 0x18 {
        out.append("LD ST, ");
        push_register(out, x);
    } else if kk == 0x1E {
        out.append("ADD I, ");
        push_register(out, x);
    } else if kk == 0x29 {
        out.append("LD F, ");
        push_register(out, x);
    } else if kk == 0x33 {
        out.append("LD B, ");
        push_register(out, x);
    } else if kk == 0x55 {
        out.append("LD [I], ");
        push_register(out, x);
    } else if kk == 0x65 {
        out.append("LD ");
        push_register(out, x);
        out.append(", [I]");
    } else {
        push_data_word(out, opcode);
    }
    assert(out@ =~= old(out)@ + decoded_special(opcode));
}

fn push_instruction(out: &mut String, opcode: u16)
    ensures
        final(out)@ == old(out)@ + decoded(opcode),
{
    proof {
        reveal(decoded);
        lemma_opcode_fields(opcode);
    }
    let class: u16 = opcode >> 12;
    let n: u16 = opcode & 0xF;
    if opcode == 0x00E0 {
        out.append("CLS");
    } else if opcode == 0x00EE {
        out.append("RET");
    } else if class == 0x0 {
        out.append("SYS ");
        push_address(out, opcode);
    } else if class == 0x1 {
        out.append("JP ");
        push_address(out, opcode);
    } else if class == 0x2 {
        out.append("CALL ");
        push_address(out, opcode);
    } else if class == 0x3 {
        out.append("SE ");
        push_register_and_byte(out, opcode);
    } else if class == 0x4 {
        out.append("SNE ");
        push_register_and_byte(out, opcode);
    } else if class == 0x5 {
        if n == 0 {
            out.append("SE ");
            push_registers(out, opcode);
        } else {
            push_data_word(out, opcode);
        }
    } else if class == 0x6 {
        out.append("LD ");
        push_register_and_byte(out, opcode);
    } else if class == 0x7 {
        out.append("ADD ");
        push_register_and_byte(out, opcode);
    } else if class == 0x8 {
        push_arithmetic(out, opcode);
    } else if class == 0x9 {
        if n == 0 {
            out.append("SNE ");
            push_registers(out, opcode);
        } else {
            push_data_word(out, opcode);
        }
    } else if class == 0xA {
        out.append("LD I, ");
        push_address(out, opcode);
    } else if class == 0xB {
        out.append("JP V0, ");
        push_address(out, opcode);
    } else if class == 0xC {
        out.append("RND ");
        push_register_and_byte(out, opcode);
    } else if class == 0xD {
        out.append("DRW ");
        push_registers(out, opcode);
        out.append(", ");
        push_decimal(out, n as usize);
    } else {
        push_special(out, opcode);
    }
    assert(out@ =~= old(out)@ + decoded(opcode));
}

/// The line of assembly for an instruction word
pub fn decode_instruction(opcode: u16) -> (line: String)
    ensures
        line@ == decoded(opcode),
{
    let mut line = String::new();
    push_instruction(&mut line, opcode);
    assert(line@ =~= decoded(opcode));
    line
}

/// The assembly for a sequence of bytes, each line closed by a line feed
pub fn disassemble(bytecode: Vec<u8>) -> (text: String)
    ensures
        text@ == disassembled(bytecode@),
{
    let mut text = String::new();
    let mut i: usize = 0;
    assert(bytecode@.skip(0) =~= bytecode@);
    while i < bytecode.len()
        invariant
            i <= bytecode@.len(),
            text@ + disassembled(bytecode@.skip(i as int)) == disassembled(bytecode@),
        decreases bytecode@.len() - i,
    {
        let ghost rest = bytecode@.skip(i as int);
        let ghost before = text@;
        if i + 1 >= bytecode.len() {
            text.append(".byte 0x");
            push_hex(&mut text, bytecode[i] as u16, 2);
            text.append("\n");
            proof {
                assert(rest.len() == 1);
                assert(bytecode@.skip(i + 1) =~= Seq::<u8>::empty());
                assert(text@ =~= before + disassembled(rest));
                assert(text@ + disassembled(bytecode@.skip(i + 1)) =~= before + disassembled(
                    rest,
                ));
            }
            i += 1;
        } else {
            let high: u8 = bytecode[i];
            let low: u8 = bytecode[i + 1];
            proof {
                lemma_word_from_bytes(high, low);
            }
            let opcode: u16 = ((high as u16) << 8) | (low as u16);
            push_instruction(&mut text, opcode);
            text.append("\n");
            proof {
                assert(rest.skip(2) =~= bytecode@.skip(i + 2));
                assert(text@ + disassembled(bytecode@.skip(i + 2)) =~= before + disassembled(
                    rest,
                ));
            }
            i += 2;
        }
    }
    assert(disassembled(bytecode@.skip(i as int)) =~= Seq::<char>::empty());
    assert(text@ =~= text@ + Seq::<char>::empty());
    text
}

} // verus!
