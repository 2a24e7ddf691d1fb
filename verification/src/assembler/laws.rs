//! What holds of the code that the assembler generates, whatever the statement.

use crate::assembler::codegen_utils::lemma_operand_widths;
use crate::assembler::{
    dispatched, include_code, is_label, scanned, scanned_line, statement_code, FileView,
};
use crate::assembler::directives::{
    byte_code, error_code, fill_code, space_code, text_code, warn_code, word_code,
};
use crate::assembler::error::ErrorView;
use crate::assembler::instructions::{
    add_code, address_code, and_code, byte_or_register_code, call_code, cls_code, compare_code,
    drw_code, jp_code, key_code, ld_code, or_code, plain_code, register_code, registers_code,
    ret_code, rnd_code, se_code, shl_code, shr_code, sknp_code, skp_code, sne_code, sub_code,
    subn_code, sys_code, xor_code,
};
use crate::assembler::statement::{number_value, register_value, OpcodeAddress, StatementView};
use crate::text::{digit_value, digits_value, trim_end_matches, uppercase};
use vstd::prelude::*;

verus! {

/// Whether a mnemonic in upper case names an instruction of the machine
pub open spec fn is_instruction(mnemonic: Seq<char>) -> bool {
    ||| mnemonic == "CLS"@
    ||| mnemonic == "RET"@
    ||| mnemonic == "SYS"@
    ||| mnemonic == "JP"@
    ||| mnemonic == "CALL"@
    ||| mnemonic == "SE"@
    ||| mnemonic == "SNE"@
    ||| mnemonic == "LD"@
    ||| mnemonic == "ADD"@
    ||| mnemonic == "OR"@
    ||| mnemonic == "AND"@
    ||| mnemonic == "XOR"@
    ||| mnemonic == "SUB"@
    ||| mnemonic == "SHR"@
    ||| mnemonic == "SUBN"@
    ||| mnemonic == "SHL"@
    ||| mnemonic == "RND"@
    ||| mnemonic == "DRW"@
    ||| mnemonic == "SKP"@
    ||| mnemonic == "SKNP"@
}

/// Whether a result, where it is code, is two bytes of code
pub open spec fn is_two_bytes(code: Result<Seq<u8>, ErrorView>) -> bool {
    code matches Ok(bytes) ==> bytes.len() == 2
}

proof fn lemma_shapes_take_two_bytes(s: StatementView, labels: Map<Seq<char>, OpcodeAddress>)
    ensures
        forall|word: u16| is_two_bytes(#[trigger] plain_code(s, word)),
        forall|class: int| is_two_bytes(#[trigger] address_code(s, labels, class)),
        forall|x: u16, b: int, r: int, n: int|
            is_two_bytes(#[trigger] byte_or_register_code(s, x, b, r, n)),
        forall|b: int, r: int| is_two_bytes(#[trigger] compare_code(s, b, r)),
        forall|n: int| is_two_bytes(#[trigger] registers_code(s, n)),
        forall|index: usize, class: int, low: int|
            is_two_bytes(#[trigger] register_code(s, index, class, low)),
        forall|low: int| is_two_bytes(#[trigger] key_code(s, low)),
{
}

proof fn lemma_loads_take_two_bytes(s: StatementView, labels: Map<Seq<char>, OpcodeAddress>)
    ensures
        is_two_bytes(ld_code(s, labels)),
        is_two_bytes(add_code(s)),
        is_two_bytes(jp_code(s, labels)),
        is_two_bytes(rnd_code(s)),
        is_two_bytes(drw_code(s)),
{
    lemma_shapes_take_two_bytes(s, labels);
}

proof fn lemma_instructions_take_two_bytes(s: StatementView, labels: Map<Seq<char>, OpcodeAddress>)
    ensures
        is_two_bytes(cls_code(s)),
        is_two_bytes(ret_code(s)),
        is_two_bytes(sys_code(s, labels)),
        is_two_bytes(jp_code(s, labels)),
        is_two_bytes(call_code(s, labels)),
        is_two_bytes(se_code(s)),
        is_two_bytes(sne_code(s)),
        is_two_bytes(ld_code(s, labels)),
        is_two_bytes(add_code(s)),
        is_two_bytes(or_code(s)),
        is_two_bytes(and_code(s)),
        is_two_bytes(xor_code(s)),
        is_two_bytes(sub_code(s)),
        is_two_bytes(shr_code(s)),
        is_two_bytes(subn_code(s)),
        is_two_bytes(shl_code(s)),
        is_two_bytes(rnd_code(s)),
        is_two_bytes(drw_code(s)),
        is_two_bytes(skp_code(s)),
        is_two_bytes(sknp_code(s)),
{
    lemma_shapes_take_two_bytes(s, labels);
    lemma_loads_take_two_bytes(s, labels);
}

/// The code of an instruction is the code that its mnemonic selects
proof fn lemma_dispatched_instruction(
    s: StatementView,
    mnemonic: Seq<char>,
    labels: Map<Seq<char>, OpcodeAddress>,
    included: Result<Seq<u8>, ErrorView>,
)
    requires
        is_instruction(mnemonic),
    ensures
        ({
            let code = dispatched(s, mnemonic, labels, included);
            ||| code == cls_code(s)
            ||| code == ret_code(s)
            ||| code == sys_code(s, labels)
            ||| code == jp_code(s, labels)
            ||| code == call_code(s, labels)
            ||| code == se_code(s)
            ||| code == sne_code(s)
            ||| code == ld_code(s, labels)
            ||| code == add_code(s)
            ||| code == or_code(s)
            ||| code == and_code(s)
            ||| code == xor_code(s)
            ||| code == sub_code(s)
            ||| code == shr_code(s)
            ||| code == subn_code(s)
            ||| code == shl_code(s)
            ||| code == rnd_code(s)
            ||| code == drw_code(s)
            ||| code == skp_code(s)
            ||| code == sknp_code(s)
        }),
{
    reveal(dispatched);
}

/// Every instruction that is assembled takes exactly two bytes.
pub proof fn law_instructions_take_two_bytes(
    s: StatementView,
    mnemonic: Seq<char>,
    labels: Map<Seq<char>, OpcodeAddress>,
    included: Result<Seq<u8>, ErrorView>,
)
    requires
        is_instruction(mnemonic),
    ensures
        dispatched(s, mnemonic, labels, included) matches Ok(code) ==> code.len() == 2,
{
    lemma_dispatched_instruction(s, mnemonic, labels, included);
    lemma_instructions_take_two_bytes(s, labels);
}

/// Every statement whose mnemonic, in upper case, names an instruction
/// is assembled into exactly two bytes, or not at all.
pub proof fn law_instruction_statements_take_two_bytes(
    s: StatementView,
    labels: Map<Seq<char>, OpcodeAddress>,
    files: Seq<FileView>,
    active: Seq<Seq<char>>,
)
    requires
        is_instruction(uppercase(s.instruction)),
    ensures
        statement_code(s, labels, files, active) matches Ok(code) ==> code.len() == 2,
{
    let included = include_code(s, files, active);
    assert(statement_code(s, labels, files, active) == dispatched(
        s,
        uppercase(s.instruction),
        labels,
        included,
    ));
    law_instructions_take_two_bytes(s, uppercase(s.instruction), labels, included);
}

/// The error for a number that is too wide for the operand at `index`
pub open spec fn overflow(s: StatementView, index: int, number: u16, bits: usize) -> ErrorView {
    s.argument_overflow(index as usize, number, bits)
}

/// A lexeme that writes a number is none of the words that `LD` looks for
pub proof fn lemma_number_is_no_keyword(lexeme: Seq<char>)
    requires
        number_value(lexeme) is Some,
    ensures
        lexeme != "DT"@,
        lexeme != "K"@,
        lexeme != "[I]"@,
{
    reveal_strlit("DT");
    reveal_strlit("K");
    reveal_strlit("[I]");
    if lexeme.len() > 0 {
        let first = lexeme[0];
        if first == 'D' || first == 'K' || first == '[' {
            assert(digit_value(first, 10) is None);
            lemma_first_digit(lexeme, 10);
        }
    }
}

/// Digits that write a number start with a digit
pub proof fn lemma_first_digit(s: Seq<char>, radix: int)
    requires
        s.len() > 0,
        digit_value(s[0], radix) is None,
    ensures
        digits_value(s, radix) is None,
    decreases s.len(),
{
    if s.len() > 1 {
        assert(s.drop_last()[0] == s[0]);
        lemma_first_digit(s.drop_last(), radix);
    }
}

/// A register is none of the words that `LD` and `ADD` look for
pub proof fn lemma_register_is_no_keyword(lexeme: Seq<char>)
    requires
        register_value(lexeme) is Some,
    ensures
        lexeme != "I"@,
        lexeme != "DT"@,
        lexeme != "ST"@,
        lexeme != "F"@,
        lexeme != "B"@,
        lexeme != "[I]"@,
{
    reveal_strlit("I");
    reveal_strlit("DT");
    reveal_strlit("ST");
    reveal_strlit("F");
    reveal_strlit("B");
    reveal_strlit("[I]");
}

/// A number that does not fit in a byte, written where an instruction
/// takes a register and a byte, is an overflow, and no code is generated.
pub proof fn law_wide_byte_overflows(s: StatementView, labels: Map<Seq<char>, OpcodeAddress>)
    requires
        s.wf(),
        s.arguments.len() == 2,
        register_value(s.arguments[0]) is Some,
        number_value(s.arguments[1]) matches Some(number) && number > 0xFF,
    ensures
        ({
            let wide = Err::<Seq<u8>, ErrorView>(
                overflow(s, 1, number_value(s.arguments[1]).unwrap(), 8),
            );
            &&& se_code(s) == wide
            &&& sne_code(s) == wide
            &&& ld_code(s, labels) == wide
            &&& add_code(s) == wide
            &&& rnd_code(s) == wide
        }),
{
    lemma_operand_widths();
    lemma_register_is_no_keyword(s.arguments[0]);
    lemma_number_is_no_keyword(s.arguments[1]);
}

/// A number that does not fit in a nibble, written as the height of a
/// sprite, is an overflow, and no code is generated.
pub proof fn law_wide_nibble_overflows(s: StatementView)
    requires
        s.wf(),
        s.arguments.len() == 3,
        register_value(s.arguments[0]) is Some,
        register_value(s.arguments[1]) is Some,
        number_value(s.arguments[2]) matches Some(number) && number > 0xF,
    ensures
        drw_code(s) == Err::<Seq<u8>, ErrorView>(
            overflow(s, 2, number_value(s.arguments[2]).unwrap(), 4),
        ),
{
    lemma_operand_widths();
}


/// A number that does not fit in 12 bits, written where an instruction
/// takes an address, is an overflow, whatever the labels are, and no code
/// is generated.
pub proof fn law_wide_address_overflows(s: StatementView, labels: Map<Seq<char>, OpcodeAddress>)
    requires
        s.wf(),
        1 <= s.arguments.len() <= 2,
        number_value(s.arguments.last()) matches Some(number) && number > 0xFFF,
        s.arguments.len() == 2 ==> s.arguments[0] == "I"@ || register_value(s.arguments[0]) is Some,
    ensures
        ({
            let number = number_value(s.arguments.last()).unwrap();
            let wide = Err::<Seq<u8>, ErrorView>(
                overflow(s, s.arguments.len() - 1, number, 12),
            );
            &&& s.parse_addr_or_label((s.arguments.len() - 1) as usize, labels) == Err::<
                OpcodeAddress,
                ErrorView,
            >(overflow(s, s.arguments.len() - 1, number, 12))
            &&& s.arguments.len() == 1 ==> sys_code(s, labels) == wide && jp_code(s, labels) == wide
                && call_code(s, labels) == wide
            &&& s.arguments.len() == 2 && s.arguments[0] == "I"@ ==> ld_code(s, labels) == wide
            &&& s.arguments.len() == 2 && register_value(s.arguments[0]) is Some ==> jp_code(
                s,
                labels,
            ) == wide
        }),
{
    lemma_operand_widths();
}

/// A label whose address in memory does not fit in 12 bits, written
/// where an instruction takes an address, is an overflow too: no address
/// spills into the rest of the instruction word.
pub proof fn law_far_label_overflows(s: StatementView, labels: Map<Seq<char>, OpcodeAddress>)
    requires
        s.wf(),
        s.arguments.len() == 1,
        number_value(s.arguments[0]) is None,
        labels.contains_key(s.arguments[0]),
        labels[s.arguments[0]] >= 0xE00,
    ensures
        ({
            let far = Err::<Seq<u8>, ErrorView>(
                overflow(
                    s,
                    0,
                    if labels[s.arguments[0]] + 0x200 > 0xFFFF {
                        0xFFFFu16
                    } else {
                        (labels[s.arguments[0]] + 0x200) as u16
                    },
                    12,
                ),
            );
            &&& sys_code(s, labels) == far
            &&& jp_code(s, labels) == far
            &&& call_code(s, labels) == far
        }),
{
    lemma_operand_widths();
}

/// An address that is parsed for an instruction fits in 12 bits.
pub proof fn law_address_fits(s: StatementView, labels: Map<Seq<char>, OpcodeAddress>)
    ensures
        s.parse_address(0, labels) matches Ok(address) ==> address <= 0xFFF,
        s.parse_address(1, labels) matches Ok(address) ==> address <= 0xFFF,
{
}

/// Where the first pass gets through some lines, it gets through the first of them
proof fn lemma_scanned_so_far(
    lines: Seq<Seq<char>>,
    n: int,
    m: int,
    files: Seq<FileView>,
    active: Seq<Seq<char>>,
)
    requires
        0 <= n <= m,
        scanned(lines, m, files, active) is Ok,
    ensures
        scanned(lines, n, files, active) is Ok,
    decreases m - n,
{
    if n < m {
        lemma_scanned_so_far(lines, n, m - 1, files, active);
    }
}

/// A label keeps the address of its last definition through the lines that follow
proof fn lemma_label_stays(
    lines: Seq<Seq<char>>,
    d: int,
    n: int,
    files: Seq<FileView>,
    active: Seq<Seq<char>>,
)
    requires
        0 <= d < n <= lines.len(),
        is_label(lines[d]),
        forall|j: int|
            d < j < lines.len() && is_label(#[trigger] lines[j]) ==> trim_end_matches(lines[j], ':')
                != trim_end_matches(lines[d], ':'),
        scanned(lines, n, files, active) is Ok,
    ensures
        scanned(lines, d, files, active) matches Ok(at) && scanned(lines, n, files, active) matches Ok(
            found,
        ) && found.labels.contains_key(trim_end_matches(lines[d], ':')) && found.labels[trim_end_matches(
            lines[d],
            ':',
        )] == at.address,
    decreases n - d,
{
    lemma_scanned_so_far(lines, d, n, files, active);
    lemma_scanned_so_far(lines, n - 1, n, files, active);
    let before = scanned(lines, n - 1, files, active)->Ok_0;
    let after = scanned_line(before, lines[n - 1], n as usize, files, active);
    assert(scanned(lines, n, files, active) == after);
    if is_label(lines[n - 1]) {
        assert(after->Ok_0.labels == before.labels.insert(
            trim_end_matches(lines[n - 1], ':'),
            before.address,
        ));
    } else {
        assert(after->Ok_0.labels == before.labels);
    }
    if n > d + 1 {
        lemma_label_stays(lines, d, n - 1, files, active);
    }
}

/// The two passes make the place of a definition immaterial: a label
/// stands for the address of what follows its last definition, and it
/// does so in every statement that names it, be the statement before the
/// definition or after it.
pub proof fn law_label_means_the_same_everywhere(
    lines: Seq<Seq<char>>,
    d: int,
    s: StatementView,
    index: usize,
    files: Seq<FileView>,
    active: Seq<Seq<char>>,
)
    requires
        0 <= d < lines.len(),
        is_label(lines[d]),
        forall|j: int|
            d < j < lines.len() && is_label(#[trigger] lines[j]) ==> trim_end_matches(lines[j], ':')
                != trim_end_matches(lines[d], ':'),
        scanned(lines, lines.len() as int, files, active) is Ok,
        index < s.arguments.len(),
        s.arguments[index as int] == trim_end_matches(lines[d], ':'),
    ensures
        scanned(lines, d, files, active) matches Ok(at) && scanned(
            lines,
            lines.len() as int,
            files,
            active,
        ) matches Ok(found) && s.parse_label(index, found.labels) == Ok::<OpcodeAddress, ErrorView>(
            if at.address + 0x200 > 0xFFFF {
                0xFFFFu16
            } else {
                (at.address + 0x200) as u16
            },
        ),
{
    lemma_label_stays(lines, d, lines.len() as int, files, active);
}

/// Whether a result is the error for an argument that is not there
pub open spec fn is_index_error(code: Result<Seq<u8>, ErrorView>) -> bool {
    code matches Err(error) && error is InvalidArgumentIndex
}

proof fn lemma_instructions_ask_for_no_argument_in_vain(
    s: StatementView,
    labels: Map<Seq<char>, OpcodeAddress>,
)
    ensures
        !is_index_error(cls_code(s)),
        !is_index_error(ret_code(s)),
        !is_index_error(sys_code(s, labels)),
        !is_index_error(jp_code(s, labels)),
        !is_index_error(call_code(s, labels)),
        !is_index_error(se_code(s)),
        !is_index_error(sne_code(s)),
        !is_index_error(ld_code(s, labels)),
        !is_index_error(add_code(s)),
        !is_index_error(rnd_code(s)),
        !is_index_error(drw_code(s)),
        !is_index_error(skp_code(s)),
        !is_index_error(sknp_code(s)),
        forall|n: int| !is_index_error(#[trigger] registers_code(s, n)),
{
}

proof fn lemma_directives_ask_for_no_argument_in_vain(s: StatementView)
    ensures
        !is_index_error(byte_code(s)),
        !is_index_error(word_code(s)),
        !is_index_error(text_code(s)),
        !is_index_error(fill_code(s)),
        !is_index_error(space_code(s)),
        !is_index_error(warn_code(s)),
        !is_index_error(error_code(s)),
{
}

/// What a mnemonic can select
proof fn lemma_dispatched(
    s: StatementView,
    mnemonic: Seq<char>,
    labels: Map<Seq<char>, OpcodeAddress>,
    included: Result<Seq<u8>, ErrorView>,
)
    ensures
        ({
            let code = dispatched(s, mnemonic, labels, included);
            ||| is_instruction(mnemonic)
            ||| code == byte_code(s)
            ||| code == word_code(s)
            ||| code == text_code(s)
            ||| code == fill_code(s)
            ||| code == space_code(s)
            ||| code == warn_code(s)
            ||| code == error_code(s)
            ||| code == included
            ||| code matches Err(error) && error is UnknownInstruction
        }),
{
    reveal(dispatched);
}

/// No statement fails for want of an argument that it asked for without
/// counting: every instruction and every directive counts its arguments
/// first. The error for an argument that is not there can only come out
/// of an included file, and out of none if none is included.
pub proof fn law_arguments_are_counted(
    s: StatementView,
    mnemonic: Seq<char>,
    labels: Map<Seq<char>, OpcodeAddress>,
    included: Result<Seq<u8>, ErrorView>,
)
    requires
        !is_index_error(included),
    ensures
        !is_index_error(dispatched(s, mnemonic, labels, included)),
{
    lemma_dispatched(s, mnemonic, labels, included);
    lemma_directives_ask_for_no_argument_in_vain(s);
    if is_instruction(mnemonic) {
        lemma_dispatched_instruction(s, mnemonic, labels, included);
        lemma_instructions_ask_for_no_argument_in_vain(s, labels);
    }
}
} // verus!
