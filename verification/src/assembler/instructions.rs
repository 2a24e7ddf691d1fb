//! Code generation functions for instructions

use crate::assembler::codegen_utils::{
    encode_nnn, encode_xkk, encode_xyn, halves, lemma_operand_widths, opcode_nnn, opcode_xkk,
    opcode_xyn, split_u16,
};
use crate::assembler::error::{emitted, Error, ErrorView};
use crate::assembler::statement::{Statement, StatementView, SymbolTable};
use crate::text::str_eq;
use vstd::prelude::*;

verus! {

/// The code of an instruction without operands
pub open spec fn plain_code(s: StatementView, word: u16) -> Result<Seq<u8>, ErrorView> {
    match s.assert_n_arguments(0) {
        Err(error) => Err(error),
        Ok(_) => Ok(halves(word)),
    }
}

/// The code of an instruction of family `class` whose one operand is an
/// address of 12 bits, written as a number or as a label
pub open spec fn address_code(s: StatementView, symbol_table: Map<Seq<char>, u16>, class: int) -> Result<
    Seq<u8>,
    ErrorView,
> {
    match s.assert_n_arguments(1) {
        Err(error) => Err(error),
        Ok(_) => match s.parse_address(0, symbol_table) {
            Err(error) => Err(error),
            Ok(address) => Ok(halves(opcode_nnn(class, address))),
        },
    }
}

/// The code of an instruction whose second operand is a byte or a
/// register, after the register `x`: family `byte_class` with a byte,
/// family `register_class` with the last nibble `n` with a register. A
/// number that does not fit in a byte is an overflow; what is neither a
/// number nor a register is an invalid argument.
pub open spec fn byte_or_register_code(
    s: StatementView,
    x: u16,
    byte_class: int,
    register_class: int,
    n: int,
) -> Result<Seq<u8>, ErrorView> {
    match s.parse_number(1, 8) {
        Ok(byte) => Ok(halves(opcode_xkk(byte_class, x as int, byte as int))),
        Err(error) => if error is ArgumentOverflow {
            Err(error)
        } else {
            match s.parse_register(1) {
                Ok(y) => Ok(halves(opcode_xyn(register_class, x as int, y as int, n))),
                Err(error) => Err(error),
            }
        },
    }
}

/// The code of an instruction whose two operands are a register and a
/// byte or a second register
pub open spec fn compare_code(s: StatementView, byte_class: int, register_class: int) -> Result<
    Seq<u8>,
    ErrorView,
> {
    match s.assert_n_arguments(2) {
        Err(error) => Err(error),
        Ok(_) => match s.parse_register(0) {
            Err(error) => Err(error),
            Ok(x) => byte_or_register_code(s, x, byte_class, register_class, 0),
        },
    }
}

/// The code of an `8xy_` instruction with the last nibble `n`: two registers and nothing else
pub open spec fn registers_code(s: StatementView, n: int) -> Result<Seq<u8>, ErrorView> {
    match s.parse_only_two_registers() {
        Err(error) => Err(error),
        Ok((x, y)) => Ok(halves(opcode_xyn(8, x as int, y as int, n))),
    }
}

/// The code of an instruction of family `class` with the low byte `low`,
/// whose register is argument `index`
pub open spec fn register_code(s: StatementView, index: usize, class: int, low: int) -> Result<
    Seq<u8>,
    ErrorView,
> {
    match s.parse_register(index) {
        Err(error) => Err(error),
        Ok(x) => Ok(halves(opcode_xkk(class, x as int, low))),
    }
}

/// `CLS`: `00E0`
pub open spec fn cls_code(s: StatementView) -> Result<Seq<u8>, ErrorView> {
    plain_code(s, 0x00E0)
}

/// `RET`: `00EE`
pub open spec fn ret_code(s: StatementView) -> Result<Seq<u8>, ErrorView> {
    plain_code(s, 0x00EE)
}

/// `SYS addr`: `0nnn`
pub open spec fn sys_code(s: StatementView, symbol_table: Map<Seq<char>, u16>) -> Result<
    Seq<u8>,
    ErrorView,
> {
    address_code(s, symbol_table, 0x0)
}

/// `JP addr`: `1nnn`; `JP V0, addr`: `Bnnn`, where no register but `V0` will do
pub open spec fn jp_code(s: StatementView, symbol_table: Map<Seq<char>, u16>) -> Result<
    Seq<u8>,
    ErrorView,
> {
    if s.arguments.len() == 1 {
        address_code(s, symbol_table, 0x1)
    } else if s.arguments.len() == 2 {
        match s.parse_register(0) {
            Err(error) => Err(error),
            Ok(register) => match s.parse_address(1, symbol_table) {
                Err(error) => Err(error),
                Ok(address) => if register != 0 {
                    Err(s.invalid_argument(0))
                } else {
                    Ok(halves(opcode_nnn(0xB, address)))
                },
            },
        }
    } else {
        Err(s.invalid_argument_count(s.arguments.len() as usize, seq![1, 2]))
    }
}

/// `CALL addr`: `2nnn`
pub open spec fn call_code(s: StatementView, symbol_table: Map<Seq<char>, u16>) -> Result<
    Seq<u8>,
    ErrorView,
> {
    address_code(s, symbol_table, 0x2)
}

/// `SE Vx, kk`: `3xkk`; `SE Vx, Vy`: `5xy0`
pub open spec fn se_code(s: StatementView) -> Result<Seq<u8>, ErrorView> {
    compare_code(s, 0x3, 0x5)
}

/// `SNE Vx, kk`: `4xkk`; `SNE Vx, Vy`: `9xy0`
pub open spec fn sne_code(s: StatementView) -> Result<Seq<u8>, ErrorView> {
    compare_code(s, 0x4, 0x9)
}

/// `LD`, by its operands: the first is looked at for `I`, `DT`, `ST`, `F`,
/// `B` and `[I]`, then the second for `DT`, `K` and `[I]`, and what is left
/// loads a byte or a register into a register
pub open spec fn ld_code(s: StatementView, symbol_table: Map<Seq<char>, u16>) -> Result<
    Seq<u8>,
    ErrorView,
> {
    match s.assert_n_arguments(2) {
        Err(error) => Err(error),
        Ok(_) => {
            let target = s.arguments[0];
            let source = s.arguments[1];
            if target == "I"@ {
                match s.parse_address(1, symbol_table) {
                    Err(error) => Err(error),
                    Ok(address) => Ok(halves(opcode_nnn(0xA, address))),
                }
            } else if target == "DT"@ {
                register_code(s, 1, 0xF, 0x15)
            } else if target == "ST"@ {
                register_code(s, 1, 0xF, 0x18)
            } else if target == "F"@ {
                register_code(s, 1, 0xF, 0x29)
            } else if target == "B"@ {
                register_code(s, 1, 0xF, 0x33)
            } else if target == "[I]"@ {
                register_code(s, 1, 0xF, 0x55)
            } else {
                match s.parse_register(0) {
                    Err(error) => Err(error),
                    Ok(x) => if source == "DT"@ {
                        Ok(halves(opcode_xkk(0xF, x as int, 0x07)))
                    } else if source == "K"@ {
                        Ok(halves(opcode_xkk(0xF, x as int, 0x0A)))
                    } else if source == "[I]"@ {
                        Ok(halves(opcode_xkk(0xF, x as int, 0x65)))
                    } else {
                        byte_or_register_code(s, x, 0x6, 0x8, 0)
                    },
                }
            }
        },
    }
}

/// `ADD I, Vx`: `Fx1E`; `ADD Vx, kk`: `7xkk`; `ADD Vx, Vy`: `8xy4`
pub open spec fn add_code(s: StatementView) -> Result<Seq<u8>, ErrorView> {
    match s.assert_n_arguments(2) {
        Err(error) => Err(error),
        Ok(_) => if s.arguments[0] == "I"@ {
            register_code(s, 1, 0xF, 0x1E)
        } else {
            match s.parse_register(0) {
                Err(error) => Err(error),
                Ok(x) => byte_or_register_code(s, x, 0x7, 0x8, 4),
            }
        },
    }
}

/// `SUB Vx, Vy`: `8xy5`
pub open spec fn sub_code(s: StatementView) -> Result<Seq<u8>, ErrorView> {
    registers_code(s, 0x5)
}

/// `SUBN Vx, Vy`: `8xy7`
pub open spec fn subn_code(s: StatementView) -> Result<Seq<u8>, ErrorView> {
    registers_code(s, 0x7)
}

/// `OR Vx, Vy`: `8xy1`
pub open spec fn or_code(s: StatementView) -> Result<Seq<u8>, ErrorView> {
    registers_code(s, 0x1)
}

/// `AND Vx, Vy`: `8xy2`
pub open spec fn and_code(s: StatementView) -> Result<Seq<u8>, ErrorView> {
    registers_code(s, 0x2)
}

/// `XOR Vx, Vy`: `8xy3`
pub open spec fn xor_code(s: StatementView) -> Result<Seq<u8>, ErrorView> {
    registers_code(s, 0x3)
}

/// `SHR Vx, Vy`: `8xy6`
pub open spec fn shr_code(s: StatementView) -> Result<Seq<u8>, ErrorView> {
    registers_code(s, 0x6)
}

/// `SHL Vx, Vy`: `8xyE`
pub open spec fn shl_code(s: StatementView) -> Result<Seq<u8>, ErrorView> {
    registers_code(s, 0xE)
}

/// `RND Vx, kk`: `Cxkk`
pub open spec fn rnd_code(s: StatementView) -> Result<Seq<u8>, ErrorView> {
    match s.assert_n_arguments(2) {
        Err(error) => Err(error),
        Ok(_) => match s.parse_register(0) {
            Err(error) => Err(error),
            Ok(x) => match s.parse_number(1, 8) {
                Err(error) => Err(error),
                Ok(byte) => Ok(halves(opcode_xkk(0xC, x as int, byte as int))),
            },
        },
    }
}

/// `DRW Vx, Vy, n`: `Dxyn`
pub open spec fn drw_code(s: StatementView) -> Result<Seq<u8>, ErrorView> {
    match s.assert_n_arguments(3) {
        Err(error) => Err(error),
        Ok(_) => match s.parse_register(0) {
            Err(error) => Err(error),
            Ok(x) => match s.parse_register(1) {
                Err(error) => Err(error),
                Ok(y) => match s.parse_number(2, 4) {
                    Err(error) => Err(error),
                    Ok(nibble) => Ok(halves(opcode_xyn(0xD, x as int, y as int, nibble as int))),
                },
            },
        },
    }
}

/// The code of a skip on a key: family `E`, one operand, a register
pub open spec fn key_code(s: StatementView, low: int) -> Result<Seq<u8>, ErrorView> {
    match s.assert_n_arguments(1) {
        Err(error) => Err(error),
        Ok(_) => register_code(s, 0, 0xE, low),
    }
}

/// `SKP Vx`: `Ex9E`
pub open spec fn skp_code(s: StatementView) -> Result<Seq<u8>, ErrorView> {
    key_code(s, 0x9E)
}

/// `SKNP Vx`: `ExA1`
pub open spec fn sknp_code(s: StatementView) -> Result<Seq<u8>, ErrorView> {
    key_code(s, 0xA1)
}

fn plain(statement: &Statement, word: u16) -> (code: Result<Vec<u8>, Error>)
    ensures
        emitted(code) == plain_code(statement@, word),
{
    statement.assert_n_arguments(0)?;
    Ok(split_u16(word))
}

fn address(statement: &Statement, symbol_table: &SymbolTable, class: u16) -> (code: Result<
    Vec<u8>,
    Error,
>)
    requires
        class <= 0xF,
    ensures
        emitted(code) == address_code(statement@, symbol_table@, class as int),
{
    statement.assert_n_arguments(1)?;
    let address = statement.parse_address(0, symbol_table)?;
    Ok(encode_nnn(class, address))
}

fn byte_or_register(
    statement: &Statement,
    x: u16,
    byte_class: u16,
    register_class: u16,
    n: u16,
) -> (code: Result<Vec<u8>, Error>)
    requires
        x <= 0xF,
        byte_class <= 0xF,
        register_class <= 0xF,
        n <= 0xF,
    ensures
        emitted(code) == byte_or_register_code(
            statement@,
            x,
            byte_class as int,
            register_class as int,
            n as int,
        ),
{
    proof {
        lemma_operand_widths();
    }
    match statement.parse_number(1, 8) {
        Ok(byte) => Ok(encode_xkk(byte_class, x, byte)),
        Err(error) => {
            if let Error::ArgumentOverflow { .. } = error {
                return Err(error);
            }
            let y = statement.parse_register(1)?;
            Ok(encode_xyn(register_class, x, y, n))
        },
    }
}

fn compare(statement: &Statement, byte_class: u16, register_class: u16) -> (code: Result<
    Vec<u8>,
    Error,
>)
    requires
        byte_class <= 0xF,
        register_class <= 0xF,
    ensures
        emitted(code) == compare_code(statement@, byte_class as int, register_class as int),
{
    statement.assert_n_arguments(2)?;
    let x = statement.parse_register(0)?;
    byte_or_register(statement, x, byte_class, register_class, 0)
}

fn registers(statement: &Statement, n: u16) -> (code: Result<Vec<u8>, Error>)
    requires
        n <= 0xF,
    ensures
        emitted(code) == registers_code(statement@, n as int),
{
    let (x, y) = statement.parse_only_two_registers()?;
    Ok(encode_xyn(8, x, y, n))
}

fn register(statement: &Statement, index: usize, class: u16, low: u16) -> (code: Result<
    Vec<u8>,
    Error,
>)
    requires
        class <= 0xF,
        low <= 0xFF,
    ensures
        emitted(code) == register_code(statement@, index, class as int, low as int),
{
    let x = statement.parse_register(index)?;
    Ok(encode_xkk(class, x, low))
}

fn key(statement: &Statement, low: u16) -> (code: Result<Vec<u8>, Error>)
    requires
        low <= 0xFF,
    ensures
        emitted(code) == key_code(statement@, low as int),
{
    statement.assert_n_arguments(1)?;
    register(statement, 0, 0xE, low)
}

/// Generate the code of `CLS`
pub fn cls(statement: &Statement) -> (code: Result<Vec<u8>, Error>)
    ensures
        emitted(code) == cls_code(statement@),
{
    plain(statement, 0x00E0)
}

/// Generate the code of `RET`
pub fn ret(statement: &Statement) -> (code: Result<Vec<u8>, Error>)
    ensures
        emitted(code) == ret_code(statement@),
{
    plain(statement, 0x00EE)
}

/// Generate the code of `SYS addr`
pub fn sys(statement: &Statement, symbol_table: &SymbolTable) -> (code: Result<Vec<u8>, Error>)
    ensures
        emitted(code) == sys_code(statement@, symbol_table@),
{
    address(statement, symbol_table, 0x0)  // 0x0nnn
}

/// Generate the code of `JP addr` or `JP V0, addr`
pub fn jp(statement: &Statement, symbol_table: &SymbolTable) -> (code: Result<Vec<u8>, Error>)
    ensures
        emitted(code) == jp_code(statement@, symbol_table@),
{
    match statement.n_arguments() {
        1 => address(statement, symbol_table, 0x1),  // 0x1nnn
        2 => {
            let register = statement.parse_register(0)?;
            let address = statement.parse_address(1, symbol_table)?;
            if register != 0 {
                // Only V0 is allowed
                return Err(statement.invalid_argument(0));
            }
            Ok(encode_nnn(0xB, address))  // 0xBnnn
        },
        _ => {
            let expected: [usize; 2] = [1, 2];
            assert(expected@ =~= seq![1usize, 2usize]);
            Err(statement.invalid_argument_count(statement.n_arguments(), expected.as_slice()))
        },
    }
}

/// Generate the code of `CALL addr`
pub fn call(statement: &Statement, symbol_table: &SymbolTable) -> (code: Result<Vec<u8>, Error>)
    ensures
        emitted(code) == call_code(statement@, symbol_table@),
{
    address(statement, symbol_table, 0x2)  // 0x2nnn
}

/// Generate the code of `SE Vx, byte` or `SE Vx, Vy`
pub fn se(statement: &Statement) -> (code: Result<Vec<u8>, Error>)
    ensures
        emitted(code) == se_code(statement@),
{
    compare(statement, 0x3, 0x5)  // 0x3xkk, 0x5xy0
}

/// Generate the code of `SNE Vx, byte` or `SNE Vx, Vy`
pub fn sne(statement: &Statement) -> (code: Result<Vec<u8>, Error>)
    ensures
        emitted(code) == sne_code(statement@),
{
    compare(statement, 0x4, 0x9)  // 0x4xkk, 0x9xy0
}

/// Generate the code of `LD`, whatever its operands
pub fn ld(statement: &Statement, symbol_table: &SymbolTable) -> (code: Result<Vec<u8>, Error>)
    ensures
        emitted(code) == ld_code(statement@, symbol_table@),
{
    statement.assert_n_arguments(2)?;
    let target = statement.argument(0)?;
    let source = statement.argument(1)?;
    if str_eq(target, "I") {
        let address = statement.parse_address(1, symbol_table)?;
        Ok(encode_nnn(0xA, address))  // LD I, addr   0xAnnn
    } else if str_eq(target, "DT") {
        register(statement, 1, 0xF, 0x15)  // LD DT, Vy    0xFy15
    } else if str_eq(target, "ST") {
        register(statement, 1, 0xF, 0x18)  // LD ST, Vy    0xFy18
    } else if str_eq(target, "F") {
        register(statement, 1, 0xF, 0x29)  // LD F, Vy     0xFy29
    } else if str_eq(target, "B") {
        register(statement, 1, 0xF, 0x33)  // LD B, Vy     0xFy33
    } else if str_eq(target, "[I]") {
        register(statement, 1, 0xF, 0x55)  // LD [I], Vy   0xFy55
    } else {
        let x = statement.parse_register(0)?;
        if str_eq(source, "DT") {
            Ok(encode_xkk(0xF, x, 0x07))  // LD Vx, DT   0xFx07
        } else if str_eq(source, "K") {
            Ok(encode_xkk(0xF, x, 0x0A))  // LD Vx, K    0xFx0A
        } else if str_eq(source, "[I]") {
            Ok(encode_xkk(0xF, x, 0x65))  // LD Vx, [I]  0xFx65
        } else {
            byte_or_register(statement, x, 0x6, 0x8, 0)  // 0x6xkk, 0x8xy0
        }
    }
}

/// Generate the code of `ADD Vx, byte`, `ADD Vx, Vy` or `ADD I, Vx`
pub fn add(statement: &Statement) -> (code: Result<Vec<u8>, Error>)
    ensures
        emitted(code) == add_code(statement@),
{
    statement.assert_n_arguments(2)?;
    if str_eq(statement.argument(0)?, "I") {
        register(statement, 1, 0xF, 0x1E)  // ADD I, Vx   0xFx1E
    } else {
        let x = statement.parse_register(0)?;
        byte_or_register(statement, x, 0x7, 0x8, 4)  // 0x7xkk, 0x8xy4
    }
}

/// Generate the code of `SUB Vx, Vy`
pub fn sub(statement: &Statement) -> (code: Result<Vec<u8>, Error>)
    ensures
        emitted(code) == sub_code(statement@),
{
    registers(statement, 0x5)  // 0x8xy5
}

/// Generate the code of `SUBN Vx, Vy`
pub fn subn(statement: &Statement) -> (code: Result<Vec<u8>, Error>)
    ensures
        emitted(code) == subn_code(statement@),
{
    registers(statement, 0x7)  // 0x8xy7
}

/// Generate the code of `OR Vx, Vy`
pub fn or(statement: &Statement) -> (code: Result<Vec<u8>, Error>)
    ensures
        emitted(code) == or_code(statement@),
{
    registers(statement, 0x1)  // 0x8xy1
}

/// Generate the code of `AND Vx, Vy`
pub fn and(statement: &Statement) -> (code: Result<Vec<u8>, Error>)
    ensures
        emitted(code) == and_code(statement@),
{
    registers(statement, 0x2)  // 0x8xy2
}

/// Generate the code of `XOR Vx, Vy`
pub fn xor(statement: &Statement) -> (code: Result<Vec<u8>, Error>)
    ensures
        emitted(code) == xor_code(statement@),
{
    registers(statement, 0x3)  // 0x8xy3
}

/// Generate the code of `SHR Vx, Vy`
pub fn shr(statement: &Statement) -> (code: Result<Vec<u8>, Error>)
    ensures
        emitted(code) == shr_code(statement@),
{
    registers(statement, 0x6)  // 0x8xy6
}

/// Generate the code of `SHL Vx, Vy`
pub fn shl(statement: &Statement) -> (code: Result<Vec<u8>, Error>)
    ensures
        emitted(code) == shl_code(statement@),
{
    registers(statement, 0xE)  // 0x8xyE
}

/// Generate the code of `RND Vx, byte`
pub fn rnd(statement: &Statement) -> (code: Result<Vec<u8>, Error>)
    ensures
        emitted(code) == rnd_code(statement@),
{
    proof {
        lemma_operand_widths();
    }
    statement.assert_n_arguments(2)?;
    let x = statement.parse_register(0)?;
    let byte = statement.parse_number(1, 8)?;
    Ok(encode_xkk(0xC, x, byte))  // 0xCxkk
}

/// Generate the code of `DRW Vx, Vy, nibble`
pub fn drw(statement: &Statement) -> (code: Result<Vec<u8>, Error>)
    ensures
        emitted(code) == drw_code(statement@),
{
    proof {
        lemma_operand_widths();
    }
    statement.assert_n_arguments(3)?;
    let x = statement.parse_register(0)?;
    let y = statement.parse_register(1)?;
    let nibble = statement.parse_number(2, 4)?;
    Ok(encode_xyn(0xD, x, y, nibble))  // 0xDxyn
}

/// Generate the code of `SKP Vx`
pub fn skp(statement: &Statement) -> (code: Result<Vec<u8>, Error>)
    ensures
        emitted(code) == skp_code(statement@),
{
    key(statement, 0x9E)  // 0xEx9E
}

/// Generate the code of `SKNP Vx`
pub fn sknp(statement: &Statement) -> (code: Result<Vec<u8>, Error>)
    ensures
        emitted(code) == sknp_code(statement@),
{
    key(statement, 0xA1)  // 0xExA1
}

} // verus!
