//! Disassembly assembles back to the bytes that it was made from.
//!
//! The text that the disassembler writes is read back by the assembler
//! word for word: every line is made of plain words with a blank after
//! the first and a comma and a blank after the others, and the lexer finds
//! exactly these words again.

use crate::assembler::lexer::{bareword_end, is_separator, lexed, token_end, tokens};
use crate::assembler::codegen_utils::{halves, lemma_operand_widths, opcode_nnn, opcode_xkk, opcode_xyn};
use crate::assembler::directives::{byte_code, word_code};
use crate::assembler::dispatched;
use crate::assembler::error::ErrorView;
use crate::assembler::laws::{
    lemma_first_digit, lemma_number_is_no_keyword, lemma_register_is_no_keyword,
};
use crate::disassembler::{
    data_word, decoded, decoded_arithmetic, decoded_special, register, register_and_byte,
    registers,
};
use crate::opcode::{op_class, op_kk, op_n, op_nnn, op_x, op_y};
use crate::assembler::instructions::{
    add_code, and_code, call_code, cls_code, drw_code, jp_code, ld_code, or_code, ret_code,
    rnd_code, se_code, shl_code, shr_code, sknp_code, skp_code, sne_code, sub_code, subn_code,
    sys_code, xor_code,
};
use crate::assembler::statement::{number_value, register_value, OpcodeAddress, StatementView};
use crate::assembler::preprocessor::{
    clean, cleaned, cleaned_from, closes_macro, collected, definition_at, expanded_all,
    opens_macro, preprocessed, words, LineView, MacroView,
};
use crate::assembler::{
    assembled, generated, include_code, is_directive, is_label, scanned, scanned_line,
    statement_code, FileView, PassView,
};
use crate::disassembler::disassembled;
use crate::text::{is_ascii, is_whitespace, lemma_find_char, strip_end, strip_start, trim, uppercase};
use crate::text::{decimal, digit_char, digit_value, digits_value, find_char, hex, parse_unsigned};
use vstd::prelude::*;

verus! {

/// Whether a character can stand in a word: it separates nothing and
/// opens no string, no comment and no label
pub open spec fn is_plain_char(c: char) -> bool {
    !is_separator(c) && c != '"' && c != ';' && c != ':'
}

/// Whether a word is plain: not empty, and made of plain characters
pub open spec fn is_plain(word: Seq<char>) -> bool {
    &&& word.len() > 0
    &&& forall|i: int| 0 <= i < word.len() ==> is_plain_char(#[trigger] word[i])
}

/// What stands before word `k` of a line: nothing before the first, a
/// blank before the second, a comma and a blank before the others
pub open spec fn separator_before(k: int) -> Seq<char> {
    if k <= 0 {
        seq![]
    } else if k == 1 {
        seq![' ']
    } else {
        seq![',', ' ']
    }
}

/// The words from word `k` on, each with its separator before it
pub open spec fn joined(words: Seq<Seq<char>>, k: int) -> Seq<char>
    decreases words.len() - k,
{
    if k < 0 || k >= words.len() {
        seq![]
    } else {
        separator_before(k) + words[k] + joined(words, k + 1)
    }
}

/// The line that is made of the words
pub open spec fn line_of(words: Seq<Seq<char>>) -> Seq<char> {
    joined(words, 0)
}

/// A run of characters that are no separators, up to a separator or to
/// the end of the line, is a bare word
proof fn lemma_bareword_run(line: Seq<char>, from: int, to: int)
    requires
        0 <= from <= to <= line.len(),
        forall|i: int| from <= i < to ==> !is_separator(#[trigger] line[i]),
        to == line.len() || is_separator(line[to]),
    ensures
        bareword_end(line, from) == to,
    decreases to - from,
{
    if from < to {
        lemma_bareword_run(line, from + 1, to);
    }
}

/// The lexer finds the words of a line again: from the point where the
/// words from `k` on start, its tokens are these words
proof fn lemma_tokens_of_joined(line: Seq<char>, p: int, words: Seq<Seq<char>>, k: int)
    requires
        0 <= k <= words.len(),
        0 <= p <= line.len(),
        line.skip(p) == joined(words, k),
        forall|j: int| k <= j < words.len() ==> is_plain(#[trigger] words[j]),
    ensures
        tokens(line, p).len() == words.len() - k,
        forall|j: int|
            0 <= j < words.len() - k ==> {
                let token = #[trigger] tokens(line, p)[j];
                &&& 0 <= token.0 <= token.1 <= line.len()
                &&& line.subrange(token.0, token.1) == words[k + j]
            },
    decreases words.len() - k,
{
    if k == words.len() {
        assert(line.skip(p).len() == 0);
    } else {
        let sep = separator_before(k);
        let word = words[k];
        let rest = joined(words, k + 1);
        let start = p + sep.len();
        let end = start + word.len();
        let tail = line.skip(p);
        assert(tail == sep + word + rest);
        assert(tail.len() == sep.len() + word.len() + rest.len());
        assert forall|i: int| 0 <= i < tail.len() implies line[p + i] == #[trigger] tail[i] by {}
        assert forall|i: int| 0 <= i < sep.len() implies is_separator(#[trigger] line[p + i]) by {
            assert(line[p + i] == tail[i]);
            assert(tail[i] == sep[i]);
        }
        assert(tokens(line, p) == tokens(line, start)) by {
            if sep.len() == 1 {
                assert(is_separator(line[p + 0]));
            } else if sep.len() == 2 {
                assert(is_separator(line[p + 0]));
                assert(is_separator(line[p + 1]));
                assert(tokens(line, p) == tokens(line, p + 1));
            }
        }
        assert forall|i: int| start <= i < end implies !is_separator(#[trigger] line[i]) by {
            assert(line[i] == tail[i - p]);
            assert(tail[i - p] == word[i - start]);
            assert(is_plain_char(word[i - start]));
        }
        assert(line[start] == word[0]) by {
            assert(line[start] == tail[start - p]);
        }
        assert(is_plain_char(word[0]));
        if end < line.len() {
            assert(rest.len() > 0);
            assert(k + 1 < words.len());
            let next = separator_before(k + 1);
            assert(rest == next + words[k + 1] + joined(words, k + 2));
            assert(line[end] == tail[end - p]);
            assert(tail[end - p] == rest[0]);
            assert(rest[0] == next[0]);
            assert(is_separator(line[end]));
        }
        lemma_bareword_run(line, start, end);
        assert(token_end(line, start) == end);
        assert(tokens(line, start) == seq![(start, end)] + tokens(line, end));
        assert(line.skip(end).len() == rest.len());
        assert forall|i: int| 0 <= i < rest.len() implies line.skip(end)[i] == rest[i] by {
            assert(line[p + (end - p + i)] == tail[end - p + i]);
            assert(tail[end - p + i] == rest[i]);
        }
        assert(line.skip(end) =~= rest);
        lemma_tokens_of_joined(line, end, words, k + 1);
        assert forall|i: int| 0 <= i < word.len() implies line.subrange(start, end)[i]
            == word[i] by {
            assert(line[p + (start - p + i)] == tail[start - p + i]);
            assert(tail[start - p + i] == word[i]);
        }
        assert(line.subrange(start, end) =~= word);
        assert forall|j: int| 0 <= j < words.len() - k implies {
            let token = #[trigger] tokens(line, p)[j];
            &&& 0 <= token.0 <= token.1 <= line.len()
            &&& line.subrange(token.0, token.1) == words[k + j]
        } by {
            if j > 0 {
                assert(tokens(line, p)[j] == tokens(line, end)[j - 1]);
            }
        }
    }
}

/// A line of plain words is lexed into the statement of these words
pub proof fn lemma_lexed_line(words: Seq<Seq<char>>, line_number: usize)
    requires
        words.len() >= 1,
        forall|j: int| 0 <= j < words.len() ==> is_plain(#[trigger] words[j]),
    ensures
        lexed(line_of(words), line_number) matches Some(s) && s.instruction == words[0]
            && s.arguments == words.skip(1) && s.wf(),
{
    let line = line_of(words);
    assert(line.skip(0) =~= line);
    lemma_tokens_of_joined(line, 0, words, 0);
    let s = lexed(line, line_number).unwrap();
    assert(tokens(line, 0)[0].0 <= tokens(line, 0)[0].1);
    assert forall|i: int| 0 <= i < s.arguments.len() implies s.arguments[i] == words.skip(1)[i] by {
        let token = tokens(line, 0)[i + 1];
        assert(line.subrange(token.0, token.1) == words[0 + (i + 1)]);
    }
    assert(s.arguments =~= words.skip(1));
}

/// What a line of plain words is made of: it is not empty, it starts
/// and ends with a plain character, and a character of it that is not
/// plain is a blank or a comma
pub proof fn lemma_line_shape(words: Seq<Seq<char>>, k: int)
    requires
        0 <= k < words.len(),
        forall|j: int| k <= j < words.len() ==> is_plain(#[trigger] words[j]),
    ensures
        joined(words, k).len() > separator_before(k).len(),
        is_plain_char(joined(words, k)[separator_before(k).len() as int]),
        is_plain_char(joined(words, k).last()),
        forall|i: int|
            0 <= i < joined(words, k).len() ==> {
                let c = #[trigger] joined(words, k)[i];
                is_plain_char(c) || c == ' ' || c == ','
            },
    decreases words.len() - k,
{
    let sep = separator_before(k);
    let word = words[k];
    let rest = joined(words, k + 1);
    let all = joined(words, k);
    assert(all == sep + word + rest);
    assert(is_plain_char(word[0]));
    assert(is_plain_char(word.last()));
    if k + 1 < words.len() {
        lemma_line_shape(words, k + 1);
        assert(all.last() == rest.last());
    } else {
        assert(rest.len() == 0);
        assert(all.last() == word.last());
    }
    assert(all[sep.len() as int] == word[0]);
    assert forall|i: int| 0 <= i < all.len() implies {
        let c = #[trigger] all[i];
        is_plain_char(c) || c == ' ' || c == ','
    } by {
        if i < sep.len() {
            assert(all[i] == sep[i]);
        } else if i < sep.len() + word.len() {
            assert(all[i] == word[i - sep.len()]);
        } else {
            assert(all[i] == rest[i - sep.len() - word.len()]);
        }
    }
}


// The numbers that the disassembler writes

/// Sixteen to the power of `width`
pub open spec fn pow16(width: nat) -> nat
    decreases width,
{
    if width == 0 {
        1
    } else {
        16 * pow16((width - 1) as nat)
    }
}

/// The character of a digit is plain and is read back as the digit
proof fn lemma_digit_char(d: int, radix: int)
    requires
        0 <= d < radix <= 16,
    ensures
        digit_value(digit_char(d), radix) == Some(d),
        is_plain_char(digit_char(d)),
        digit_char(d) != '+',
        digit_char(d) != 'x',
        digit_char(d) != 'b',
        d != 0 ==> digit_char(d) != '0',
{
}

/// A number in hexadecimal has the width that was asked for, is made
/// of plain characters, and is read back as the number
pub proof fn lemma_hex(n: nat, width: nat)
    requires
        n < pow16(width),
    ensures
        hex(n, width).len() == width,
        digits_value(hex(n, width), 16) == Some(n as int),
        forall|i: int| 0 <= i < width ==> is_plain_char(#[trigger] hex(n, width)[i]),
        forall|i: int| 0 <= i < width ==> hex(n, width)[i] != '+',
    decreases width,
{
    if width > 0 {
        let rest = hex(n / 16, (width - 1) as nat);
        lemma_hex(n / 16, (width - 1) as nat);
        lemma_digit_char((n % 16) as int, 16);
        let all = hex(n, width);
        assert(all == rest.push(digit_char((n % 16) as int)));
        assert(all.drop_last() =~= rest);
        assert forall|i: int| 0 <= i < width implies is_plain_char(#[trigger] all[i]) && all[i]
            != '+' by {
            if i < width - 1 {
                assert(all[i] == rest[i]);
            }
        }
    }
}

/// The widths that the disassembler writes, in numbers
proof fn lemma_pow16()
    ensures
        pow16(1) == 16,
        pow16(2) == 256,
        pow16(3) == 4096,
        pow16(4) == 65536,
{
    reveal_with_fuel(pow16, 5);
}

/// The name of a register is plain and is read back as the register
pub proof fn lemma_register_word(x: int)
    requires
        0 <= x < 16,
    ensures
        is_plain(crate::disassembler::register(x)),
        register_value(crate::disassembler::register(x)) == Some(x as u16),
        number_value(crate::disassembler::register(x)) is None,
        crate::disassembler::register(x).len() == 2,
        crate::disassembler::register(x)[0] == 'V',
{
    reveal_strlit("V");
    lemma_pow16();
    lemma_hex(x as nat, 1);
    let word = crate::disassembler::register(x);
    let digit = hex(x as nat, 1);
    assert(word =~= seq!['V', digit[0]]);
    assert(digit.drop_last() =~= Seq::<char>::empty());
    assert(digit[0] == digit_char(x)) by {
        assert(hex(x as nat, 1) == hex(x as nat / 16, 0).push(digit_char((x as nat % 16) as int)));
    }
    lemma_digit_char(x, 16);
    assert(is_plain_char('V'));
    assert forall|i: int| 0 <= i < word.len() implies is_plain_char(#[trigger] word[i]) by {}
    assert(digit_value('V', 10) is None);
    lemma_first_digit(word, 10);
}

/// A number that is written as `0x` and hexadecimal digits is plain
/// and is read back as the number
pub proof fn lemma_hex_word(n: nat, width: nat)
    requires
        1 <= width <= 4,
        n < pow16(width),
    ensures
        is_plain("0x"@ + hex(n, width)),
        number_value("0x"@ + hex(n, width)) == Some(n as u16),
        register_value("0x"@ + hex(n, width)) is None,
{
    reveal_strlit("0x");
    lemma_pow16();
    lemma_hex(n, width);
    let word = "0x"@ + hex(n, width);
    assert(word.skip(2) =~= hex(n, width));
    assert(word[0] == '0' && word[1] == 'x');
    assert(is_plain_char('0') && is_plain_char('x'));
    assert forall|i: int| 0 <= i < word.len() implies is_plain_char(#[trigger] word[i]) by {
        if i >= 2 {
            assert(word[i] == hex(n, width)[i - 2]);
        }
    }
    assert(hex(n, width)[0] != '+');
    assert(n < 65536) by {
        reveal_with_fuel(pow16, 5);
    }
}

/// A number below sixteen that is written in decimal is plain and is
/// read back as the number
pub proof fn lemma_decimal_word(n: nat)
    requires
        n < 16,
    ensures
        is_plain(decimal(n)),
        number_value(decimal(n)) == Some(n as u16),
{
    reveal_with_fuel(decimal, 3);
    reveal_with_fuel(digits_value, 3);
    let word = decimal(n);
    if n < 10 {
        lemma_digit_char(n as int, 10);
        assert(word =~= seq![digit_char(n as int)]);
        assert(word.drop_last() =~= Seq::<char>::empty());
    } else {
        lemma_digit_char(1, 10);
        lemma_digit_char((n % 10) as int, 10);
        assert(decimal(n / 10) =~= seq![digit_char(1)]);
        assert(word =~= seq![digit_char(1), digit_char((n % 10) as int)]);
        assert(word.drop_last() =~= seq![digit_char(1)]);
        assert(seq![digit_char(1)].drop_last() =~= Seq::<char>::empty());
        assert(digits_value(seq![digit_char(1)], 10) == Some(1int));
        assert(digits_value(word, 10) == Some(n as int));
    }
    assert forall|i: int| 0 <= i < word.len() implies is_plain_char(#[trigger] word[i]) by {}
}


// The mnemonics

/// The mnemonics that the disassembler writes, and those that stand before
/// them where the assembler looks a mnemonic up, character by character
proof fn lemma_mnemonics()
    ensures
        "CLS"@.len() == 3 && "CLS"@[0] == 'C' && "CLS"@[1] == 'L' && "CLS"@[2] == 'S',
        "RET"@.len() == 3 && "RET"@[0] == 'R' && "RET"@[1] == 'E' && "RET"@[2] == 'T',
        "SYS"@.len() == 3 && "SYS"@[0] == 'S' && "SYS"@[1] == 'Y' && "SYS"@[2] == 'S',
        "JP"@.len() == 2 && "JP"@[0] == 'J' && "JP"@[1] == 'P',
        "CALL"@.len() == 4 && "CALL"@[0] == 'C' && "CALL"@[1] == 'A' && "CALL"@[2] == 'L' && "CALL"@[3] == 'L',
        "SE"@.len() == 2 && "SE"@[0] == 'S' && "SE"@[1] == 'E',
        "SNE"@.len() == 3 && "SNE"@[0] == 'S' && "SNE"@[1] == 'N' && "SNE"@[2] == 'E',
        "LD"@.len() == 2 && "LD"@[0] == 'L' && "LD"@[1] == 'D',
        "ADD"@.len() == 3 && "ADD"@[0] == 'A' && "ADD"@[1] == 'D' && "ADD"@[2] == 'D',
        "OR"@.len() == 2 && "OR"@[0] == 'O' && "OR"@[1] == 'R',
        "AND"@.len() == 3 && "AND"@[0] == 'A' && "AND"@[1] == 'N' && "AND"@[2] == 'D',
        "XOR"@.len() == 3 && "XOR"@[0] == 'X' && "XOR"@[1] == 'O' && "XOR"@[2] == 'R',
        "SUB"@.len() == 3 && "SUB"@[0] == 'S' && "SUB"@[1] == 'U' && "SUB"@[2] == 'B',
        "SHR"@.len() == 3 && "SHR"@[0] == 'S' && "SHR"@[1] == 'H' && "SHR"@[2] == 'R',
        "SUBN"@.len() == 4 && "SUBN"@[0] == 'S' && "SUBN"@[1] == 'U' && "SUBN"@[2] == 'B' && "SUBN"@[3] == 'N',
        "SHL"@.len() == 3 && "SHL"@[0] == 'S' && "SHL"@[1] == 'H' && "SHL"@[2] == 'L',
        "RND"@.len() == 3 && "RND"@[0] == 'R' && "RND"@[1] == 'N' && "RND"@[2] == 'D',
        "DRW"@.len() == 3 && "DRW"@[0] == 'D' && "DRW"@[1] == 'R' && "DRW"@[2] == 'W',
        "SKP"@.len() == 3 && "SKP"@[0] == 'S' && "SKP"@[1] == 'K' && "SKP"@[2] == 'P',
        "SKNP"@.len() == 4 && "SKNP"@[0] == 'S' && "SKNP"@[1] == 'K' && "SKNP"@[2] == 'N' && "SKNP"@[3] == 'P',
        ".BYTE"@.len() == 5 && ".BYTE"@[0] == '.' && ".BYTE"@[1] == 'B' && ".BYTE"@[2] == 'Y' && ".BYTE"@[3] == 'T' && ".BYTE"@[4] == 'E',
        ".DB"@.len() == 3 && ".DB"@[0] == '.' && ".DB"@[1] == 'D' && ".DB"@[2] == 'B',
        ".WORD"@.len() == 5 && ".WORD"@[0] == '.' && ".WORD"@[1] == 'W' && ".WORD"@[2] == 'O' && ".WORD"@[3] == 'R' && ".WORD"@[4] == 'D',
{
    reveal_strlit("CLS");
    reveal_strlit("RET");
    reveal_strlit("SYS");
    reveal_strlit("JP");
    reveal_strlit("CALL");
    reveal_strlit("SE");
    reveal_strlit("SNE");
    reveal_strlit("LD");
    reveal_strlit("ADD");
    reveal_strlit("OR");
    reveal_strlit("AND");
    reveal_strlit("XOR");
    reveal_strlit("SUB");
    reveal_strlit("SHR");
    reveal_strlit("SUBN");
    reveal_strlit("SHL");
    reveal_strlit("RND");
    reveal_strlit("DRW");
    reveal_strlit("SKP");
    reveal_strlit("SKNP");
    reveal_strlit(".BYTE");
    reveal_strlit(".DB");
    reveal_strlit(".WORD");
}

proof fn lemma_dispatch_cls(
    s: StatementView,
    labels: Map<Seq<char>, OpcodeAddress>,
    included: Result<Seq<u8>, ErrorView>,
)
    ensures
        dispatched(s, "CLS"@, labels, included) == cls_code(s),
{
    reveal(dispatched);
    lemma_mnemonics();
}

proof fn lemma_dispatch_ret(
    s: StatementView,
    labels: Map<Seq<char>, OpcodeAddress>,
    included: Result<Seq<u8>, ErrorView>,
)
    ensures
        dispatched(s, "RET"@, labels, included) == ret_code(s),
{
    reveal(dispatched);
    lemma_mnemonics();
}

proof fn lemma_dispatch_sys(
    s: StatementView,
    labels: Map<Seq<char>, OpcodeAddress>,
    included: Result<Seq<u8>, ErrorView>,
)
    ensures
        dispatched(s, "SYS"@, labels, included) == sys_code(s, labels),
{
    reveal(dispatched);
    lemma_mnemonics();
}

proof fn lemma_dispatch_jp(
    s: StatementView,
    labels: Map<Seq<char>, OpcodeAddress>,
    included: Result<Seq<u8>, ErrorView>,
)
    ensures
        dispatched(s, "JP"@, labels, included) == jp_code(s, labels),
{
    reveal(dispatched);
    lemma_mnemonics();
}

proof fn lemma_dispatch_call(
    s: StatementView,
    labels: Map<Seq<char>, OpcodeAddress>,
    included: Result<Seq<u8>, ErrorView>,
)
    ensures
        dispatched(s, "CALL"@, labels, included) == call_code(s, labels),
{
    reveal(dispatched);
    lemma_mnemonics();
}

proof fn lemma_dispatch_se(
    s: StatementView,
    labels: Map<Seq<char>, OpcodeAddress>,
    included: Result<Seq<u8>, ErrorView>,
)
    ensures
        dispatched(s, "SE"@, labels, included) == se_code(s),
{
    reveal(dispatched);
    lemma_mnemonics();
}

proof fn lemma_dispatch_sne(
    s: StatementView,
    labels: Map<Seq<char>, OpcodeAddress>,
    included: Result<Seq<u8>, ErrorView>,
)
    ensures
        dispatched(s, "SNE"@, labels, included) == sne_code(s),
{
    reveal(dispatched);
    lemma_mnemonics();
}

proof fn lemma_dispatch_ld(
    s: StatementView,
    labels: Map<Seq<char>, OpcodeAddress>,
    included: Result<Seq<u8>, ErrorView>,
)
    ensures
        dispatched(s, "LD"@, labels, included) == ld_code(s, labels),
{
    reveal(dispatched);
    lemma_mnemonics();
}

proof fn lemma_dispatch_add(
    s: StatementView,
    labels: Map<Seq<char>, OpcodeAddress>,
    included: Result<Seq<u8>, ErrorView>,
)
    ensures
        dispatched(s, "ADD"@, labels, included) == add_code(s),
{
    reveal(dispatched);
    lemma_mnemonics();
}

proof fn lemma_dispatch_or(
    s: StatementView,
    labels: Map<Seq<char>, OpcodeAddress>,
    included: Result<Seq<u8>, ErrorView>,
)
    ensures
        dispatched(s, "OR"@, labels, included) == or_code(s),
{
    reveal(dispatched);
    lemma_mnemonics();
}

proof fn lemma_dispatch_and(
    s: StatementView,
    labels: Map<Seq<char>, OpcodeAddress>,
    included: Result<Seq<u8>, ErrorView>,
)
    ensures
        dispatched(s, "AND"@, labels, included) == and_code(s),
{
    reveal(dispatched);
    lemma_mnemonics();
}

proof fn lemma_dispatch_xor(
    s: StatementView,
    labels: Map<Seq<char>, OpcodeAddress>,
    included: Result<Seq<u8>, ErrorView>,
)
    ensures
        dispatched(s, "XOR"@, labels, included) == xor_code(s),
{
    reveal(dispatched);
    lemma_mnemonics();
}

proof fn lemma_dispatch_sub(
    s: StatementView,
    labels: Map<Seq<char>, OpcodeAddress>,
    included: Result<Seq<u8>, ErrorView>,
)
    ensures
        dispatched(s, "SUB"@, labels, included) == sub_code(s),
{
    reveal(dispatched);
    lemma_mnemonics();
}

proof fn lemma_dispatch_shr(
    s: StatementView,
    labels: Map<Seq<char>, OpcodeAddress>,
    included: Result<Seq<u8>, ErrorView>,
)
    ensures
        dispatched(s, "SHR"@, labels, included) == shr_code(s),
{
    reveal(dispatched);
    lemma_mnemonics();
}

proof fn lemma_dispatch_subn(
    s: StatementView,
    labels: Map<Seq<char>, OpcodeAddress>,
    included: Result<Seq<u8>, ErrorView>,
)
    ensures
        dispatched(s, "SUBN"@, labels, included) == subn_code(s),
{
    reveal(dispatched);
    lemma_mnemonics();
}

proof fn lemma_dispatch_shl(
    s: StatementView,
    labels: Map<Seq<char>, OpcodeAddress>,
    included: Result<Seq<u8>, ErrorView>,
)
    ensures
        dispatched(s, "SHL"@, labels, included) == shl_code(s),
{
    reveal(dispatched);
    lemma_mnemonics();
}

proof fn lemma_dispatch_rnd(
    s: StatementView,
    labels: Map<Seq<char>, OpcodeAddress>,
    included: Result<Seq<u8>, ErrorView>,
)
    ensures
        dispatched(s, "RND"@, labels, included) == rnd_code(s),
{
    reveal(dispatched);
    lemma_mnemonics();
}

proof fn lemma_dispatch_drw(
    s: StatementView,
    labels: Map<Seq<char>, OpcodeAddress>,
    included: Result<Seq<u8>, ErrorView>,
)
    ensures
        dispatched(s, "DRW"@, labels, included) == drw_code(s),
{
    reveal(dispatched);
    lemma_mnemonics();
}

proof fn lemma_dispatch_skp(
    s: StatementView,
    labels: Map<Seq<char>, OpcodeAddress>,
    included: Result<Seq<u8>, ErrorView>,
)
    ensures
        dispatched(s, "SKP"@, labels, included) == skp_code(s),
{
    reveal(dispatched);
    lemma_mnemonics();
}

proof fn lemma_dispatch_sknp(
    s: StatementView,
    labels: Map<Seq<char>, OpcodeAddress>,
    included: Result<Seq<u8>, ErrorView>,
)
    ensures
        dispatched(s, "SKNP"@, labels, included) == sknp_code(s),
{
    reveal(dispatched);
    lemma_mnemonics();
}

proof fn lemma_dispatch_dot_byte(
    s: StatementView,
    labels: Map<Seq<char>, OpcodeAddress>,
    included: Result<Seq<u8>, ErrorView>,
)
    ensures
        dispatched(s, ".BYTE"@, labels, included) == byte_code(s),
{
    reveal(dispatched);
    lemma_mnemonics();
}

proof fn lemma_dispatch_dot_word(
    s: StatementView,
    labels: Map<Seq<char>, OpcodeAddress>,
    included: Result<Seq<u8>, ErrorView>,
)
    ensures
        dispatched(s, ".WORD"@, labels, included) == word_code(s),
{
    reveal(dispatched);
    lemma_mnemonics();
}

// The code of the statements that the disassembler writes

/// The word for an address
pub open spec fn address_word(nnn: int) -> Seq<char> {
    "0x"@ + hex(nnn as nat, 3)
}

/// The word for a byte
pub open spec fn byte_word(kk: int) -> Seq<char> {
    "0x"@ + hex(kk as nat, 2)
}

proof fn lemma_opcode_sum(opcode: u16)
    by (bit_vector)
    ensures
        (opcode / 4096) * 4096 + opcode % 4096 == opcode,
        (opcode / 4096) * 4096 + ((opcode / 256) % 16) * 256 + (opcode % 256) == opcode,
        (opcode / 4096) * 4096 + ((opcode / 256) % 16) * 256 + ((opcode / 16) % 16) * 16 + opcode
            % 16 == opcode,
        opcode % 256 == ((opcode / 16) % 16) * 16 + opcode % 16,
{
}

/// The fields of an instruction word put it together again
proof fn lemma_opcode_parts(opcode: u16)
    ensures
        opcode_nnn(op_class(opcode), op_nnn(opcode)) == opcode,
        opcode_xkk(op_class(opcode), op_x(opcode), op_kk(opcode) as int) == opcode,
        opcode_xyn(op_class(opcode), op_x(opcode), op_y(opcode), op_n(opcode)) == opcode,
        0 <= op_class(opcode) < 16,
        0 <= op_x(opcode) < 16,
        0 <= op_y(opcode) < 16,
        0 <= op_n(opcode) < 16,
        op_nnn(opcode) < 4096,
        op_kk(opcode) as int == op_y(opcode) * 16 + op_n(opcode),
{
    lemma_opcode_sum(opcode);
}

proof fn lemma_no_arguments(s: StatementView)
    requires
        s.wf(),
        s.arguments.len() == 0,
    ensures
        cls_code(s) == Ok::<Seq<u8>, ErrorView>(halves(0x00E0)),
        ret_code(s) == Ok::<Seq<u8>, ErrorView>(halves(0x00EE)),
{
}

proof fn lemma_address_argument(s: StatementView, labels: Map<Seq<char>, OpcodeAddress>, nnn: int)
    requires
        s.wf(),
        0 <= nnn < 4096,
        s.arguments == seq![address_word(nnn)],
    ensures
        sys_code(s, labels) == Ok::<Seq<u8>, ErrorView>(halves(opcode_nnn(0, nnn as u16))),
        jp_code(s, labels) == Ok::<Seq<u8>, ErrorView>(halves(opcode_nnn(1, nnn as u16))),
        call_code(s, labels) == Ok::<Seq<u8>, ErrorView>(halves(opcode_nnn(2, nnn as u16))),
{
    lemma_operand_widths();
    lemma_pow16();
    lemma_hex_word(nnn as nat, 3);
    assert(s.arguments[0] == address_word(nnn));
}

proof fn lemma_far_address(s: StatementView, labels: Map<Seq<char>, OpcodeAddress>, nnn: int)
    requires
        s.wf(),
        0 <= nnn < 4096,
    ensures
        s.arguments == seq!["I"@, address_word(nnn)] ==> ld_code(s, labels) == Ok::<
            Seq<u8>,
            ErrorView,
        >(halves(opcode_nnn(0xA, nnn as u16))),
        s.arguments == seq![register(0), address_word(nnn)] ==> jp_code(s, labels) == Ok::<
            Seq<u8>,
            ErrorView,
        >(halves(opcode_nnn(0xB, nnn as u16))),
{
    lemma_operand_widths();
    lemma_pow16();
    lemma_hex_word(nnn as nat, 3);
    lemma_register_word(0);
    if s.arguments == seq!["I"@, address_word(nnn)] {
        assert(s.arguments[0] == "I"@);
        assert(s.arguments[1] == address_word(nnn));
    }
    if s.arguments == seq![register(0), address_word(nnn)] {
        assert(s.arguments[0] == register(0));
        assert(s.arguments[1] == address_word(nnn));
    }
}

proof fn lemma_register_and_byte(
    s: StatementView,
    labels: Map<Seq<char>, OpcodeAddress>,
    x: int,
    kk: int,
)
    requires
        s.wf(),
        0 <= x < 16,
        0 <= kk < 256,
        s.arguments == seq![register(x), byte_word(kk)],
    ensures
        se_code(s) == Ok::<Seq<u8>, ErrorView>(halves(opcode_xkk(3, x, kk))),
        sne_code(s) == Ok::<Seq<u8>, ErrorView>(halves(opcode_xkk(4, x, kk))),
        ld_code(s, labels) == Ok::<Seq<u8>, ErrorView>(halves(opcode_xkk(6, x, kk))),
        add_code(s) == Ok::<Seq<u8>, ErrorView>(halves(opcode_xkk(7, x, kk))),
        rnd_code(s) == Ok::<Seq<u8>, ErrorView>(halves(opcode_xkk(0xC, x, kk))),
{
    lemma_operand_widths();
    lemma_pow16();
    lemma_hex_word(kk as nat, 2);
    lemma_register_word(x);
    assert(s.arguments[0] == register(x));
    assert(s.arguments[1] == byte_word(kk));
    lemma_register_is_no_keyword(s.arguments[0]);
    lemma_number_is_no_keyword(s.arguments[1]);
}

/// The name of a register is none of the words that `LD` looks for in its second operand
proof fn lemma_register_is_no_source(x: int)
    requires
        0 <= x < 16,
    ensures
        register(x) != "DT"@,
        register(x) != "K"@,
        register(x) != "[I]"@,
{
    lemma_register_word(x);
    reveal_strlit("DT");
    reveal_strlit("K");
    reveal_strlit("[I]");
    assert("DT"@[0] == 'D');
}

proof fn lemma_two_registers(s: StatementView, labels: Map<Seq<char>, OpcodeAddress>, x: int, y: int)
    requires
        s.wf(),
        0 <= x < 16,
        0 <= y < 16,
        s.arguments == seq![register(x), register(y)],
    ensures
        se_code(s) == Ok::<Seq<u8>, ErrorView>(halves(opcode_xyn(5, x, y, 0))),
        sne_code(s) == Ok::<Seq<u8>, ErrorView>(halves(opcode_xyn(9, x, y, 0))),
        ld_code(s, labels) == Ok::<Seq<u8>, ErrorView>(halves(opcode_xyn(8, x, y, 0))),
        add_code(s) == Ok::<Seq<u8>, ErrorView>(halves(opcode_xyn(8, x, y, 4))),
        or_code(s) == Ok::<Seq<u8>, ErrorView>(halves(opcode_xyn(8, x, y, 1))),
        and_code(s) == Ok::<Seq<u8>, ErrorView>(halves(opcode_xyn(8, x, y, 2))),
        xor_code(s) == Ok::<Seq<u8>, ErrorView>(halves(opcode_xyn(8, x, y, 3))),
        sub_code(s) == Ok::<Seq<u8>, ErrorView>(halves(opcode_xyn(8, x, y, 5))),
        shr_code(s) == Ok::<Seq<u8>, ErrorView>(halves(opcode_xyn(8, x, y, 6))),
        subn_code(s) == Ok::<Seq<u8>, ErrorView>(halves(opcode_xyn(8, x, y, 7))),
        shl_code(s) == Ok::<Seq<u8>, ErrorView>(halves(opcode_xyn(8, x, y, 0xE))),
{
    lemma_register_word(x);
    lemma_register_word(y);
    assert(s.arguments[0] == register(x));
    assert(s.arguments[1] == register(y));
    lemma_register_is_no_keyword(s.arguments[0]);
    lemma_register_is_no_source(y);
}

proof fn lemma_sprite(s: StatementView, x: int, y: int, n: int)
    requires
        s.wf(),
        0 <= x < 16,
        0 <= y < 16,
        0 <= n < 16,
        s.arguments == seq![register(x), register(y), decimal(n as nat)],
    ensures
        drw_code(s) == Ok::<Seq<u8>, ErrorView>(halves(opcode_xyn(0xD, x, y, n))),
{
    lemma_operand_widths();
    lemma_register_word(x);
    lemma_register_word(y);
    lemma_decimal_word(n as nat);
    assert(s.arguments[0] == register(x));
    assert(s.arguments[1] == register(y));
    assert(s.arguments[2] == decimal(n as nat));
}

proof fn lemma_one_register(s: StatementView, x: int)
    requires
        s.wf(),
        0 <= x < 16,
        s.arguments == seq![register(x)],
    ensures
        skp_code(s) == Ok::<Seq<u8>, ErrorView>(halves(opcode_xkk(0xE, x, 0x9E))),
        sknp_code(s) == Ok::<Seq<u8>, ErrorView>(halves(opcode_xkk(0xE, x, 0xA1))),
{
    lemma_register_word(x);
    assert(s.arguments[0] == register(x));
}

proof fn lemma_load_from(s: StatementView, labels: Map<Seq<char>, OpcodeAddress>, x: int)
    requires
        s.wf(),
        0 <= x < 16,
        s.arguments.len() == 2,
        s.arguments[0] == register(x),
    ensures
        s.arguments[1] == "DT"@ ==> ld_code(s, labels) == Ok::<Seq<u8>, ErrorView>(
            halves(opcode_xkk(0xF, x, 0x07)),
        ),
        s.arguments[1] == "K"@ ==> ld_code(s, labels) == Ok::<Seq<u8>, ErrorView>(
            halves(opcode_xkk(0xF, x, 0x0A)),
        ),
        s.arguments[1] == "[I]"@ ==> ld_code(s, labels) == Ok::<Seq<u8>, ErrorView>(
            halves(opcode_xkk(0xF, x, 0x65)),
        ),
{
    lemma_register_word(x);
    lemma_register_is_no_keyword(s.arguments[0]);
    reveal_strlit("DT");
    reveal_strlit("K");
    reveal_strlit("[I]");
    assert("DT"@.len() != "K"@.len());
    assert("DT"@.len() != "[I]"@.len());
    assert("K"@.len() != "[I]"@.len());
}

proof fn lemma_load_into(s: StatementView, labels: Map<Seq<char>, OpcodeAddress>, x: int)
    requires
        s.wf(),
        0 <= x < 16,
        s.arguments.len() == 2,
        s.arguments[1] == register(x),
    ensures
        s.arguments[0] == "DT"@ ==> ld_code(s, labels) == Ok::<Seq<u8>, ErrorView>(
            halves(opcode_xkk(0xF, x, 0x15)),
        ),
        s.arguments[0] == "ST"@ ==> ld_code(s, labels) == Ok::<Seq<u8>, ErrorView>(
            halves(opcode_xkk(0xF, x, 0x18)),
        ),
        s.arguments[0] == "F"@ ==> ld_code(s, labels) == Ok::<Seq<u8>, ErrorView>(
            halves(opcode_xkk(0xF, x, 0x29)),
        ),
        s.arguments[0] == "B"@ ==> ld_code(s, labels) == Ok::<Seq<u8>, ErrorView>(
            halves(opcode_xkk(0xF, x, 0x33)),
        ),
        s.arguments[0] == "[I]"@ ==> ld_code(s, labels) == Ok::<Seq<u8>, ErrorView>(
            halves(opcode_xkk(0xF, x, 0x55)),
        ),
        s.arguments[0] == "I"@ ==> add_code(s) == Ok::<Seq<u8>, ErrorView>(
            halves(opcode_xkk(0xF, x, 0x1E)),
        ),
{
    lemma_register_word(x);
    reveal_strlit("I");
    reveal_strlit("DT");
    reveal_strlit("ST");
    reveal_strlit("F");
    reveal_strlit("B");
    reveal_strlit("[I]");
    assert("DT"@[0] != "ST"@[0]);
    assert("F"@[0] != "B"@[0]);
    assert("I"@[0] != "F"@[0]);
    assert("I"@[0] != "B"@[0]);
    assert("DT"@.len() != "I"@.len());
    assert("DT"@.len() != "[I]"@.len());
    assert("I"@.len() != "[I]"@.len());
}

proof fn lemma_data(s: StatementView, value: int)
    requires
        s.wf(),
        s.arguments.len() == 1,
    ensures
        0 <= value < 65536 && s.arguments[0] == "0x"@ + hex(value as nat, 4) ==> word_code(s)
            == Ok::<Seq<u8>, ErrorView>(halves(value as u16)),
        0 <= value < 256 && s.arguments[0] == byte_word(value) ==> byte_code(s) == Ok::<
            Seq<u8>,
            ErrorView,
        >(seq![value as u8]),
{
    lemma_operand_widths();
    lemma_pow16();
    if 0 <= value < 65536 && s.arguments[0] == "0x"@ + hex(value as nat, 4) {
        lemma_hex_word(value as nat, 4);
    }
    if 0 <= value < 256 && s.arguments[0] == byte_word(value) {
        lemma_hex_word(value as nat, 2);
    }
}


// The lines that the disassembler writes

/// The words of the line for a word that encodes no instruction
pub open spec fn data_words(opcode: u16) -> Seq<Seq<char>> {
    seq![".word"@, "0x"@ + hex(opcode as nat, 4)]
}

/// The words of the line for an `8xy_` word
pub open spec fn arithmetic_words(opcode: u16) -> Seq<Seq<char>> {
    let n = op_n(opcode);
    let x = register(op_x(opcode));
    let y = register(op_y(opcode));
    if n == 0x0 {
        seq!["LD"@, x, y]
    } else if n == 0x1 {
        seq!["OR"@, x, y]
    } else if n == 0x2 {
        seq!["AND"@, x, y]
    } else if n == 0x3 {
        seq!["XOR"@, x, y]
    } else if n == 0x4 {
        seq!["ADD"@, x, y]
    } else if n == 0x5 {
        seq!["SUB"@, x, y]
    } else if n == 0x6 {
        seq!["SHR"@, x, y]
    } else if n == 0x7 {
        seq!["SUBN"@, x, y]
    } else if n == 0xE {
        seq!["SHL"@, x, y]
    } else {
        data_words(opcode)
    }
}

/// The words of the line for an `Ex__` or `Fx__` word
pub open spec fn special_words(opcode: u16) -> Seq<Seq<char>> {
    let vx = register(op_x(opcode));
    let kk = op_kk(opcode);
    if op_class(opcode) == 0xE {
        if kk == 0x9E {
            seq!["SKP"@, vx]
        } else if kk == 0xA1 {
            seq!["SKNP"@, vx]
        } else {
            data_words(opcode)
        }
    } else if kk == 0x07 {
        seq!["LD"@, vx, "DT"@]
    } else if kk == 0x0A {
        seq!["LD"@, vx, "K"@]
    } else if kk == 0x15 {
        seq!["LD"@, "DT"@, vx]
    } else if kk == 0x18 {
        seq!["LD"@, "ST"@, vx]
    } else if kk == 0x1E {
        seq!["ADD"@, "I"@, vx]
    } else if kk == 0x29 {
        seq!["LD"@, "F"@, vx]
    } else if kk == 0x33 {
        seq!["LD"@, "B"@, vx]
    } else if kk == 0x55 {
        seq!["LD"@, "[I]"@, vx]
    } else if kk == 0x65 {
        seq!["LD"@, vx, "[I]"@]
    } else {
        data_words(opcode)
    }
}

/// The words of the line for an instruction word
#[verifier::opaque]
pub open spec fn line_words(opcode: u16) -> Seq<Seq<char>> {
    let class = op_class(opcode);
    let x = register(op_x(opcode));
    let y = register(op_y(opcode));
    let kk = byte_word(op_kk(opcode) as int);
    let nnn = address_word(op_nnn(opcode) as int);
    if opcode == 0x00E0 {
        seq!["CLS"@]
    } else if opcode == 0x00EE {
        seq!["RET"@]
    } else if class == 0x0 {
        seq!["SYS"@, nnn]
    } else if class == 0x1 {
        seq!["JP"@, nnn]
    } else if class == 0x2 {
        seq!["CALL"@, nnn]
    } else if class == 0x3 {
        seq!["SE"@, x, kk]
    } else if class == 0x4 {
        seq!["SNE"@, x, kk]
    } else if class == 0x5 {
        if op_n(opcode) == 0 {
            seq!["SE"@, x, y]
        } else {
            data_words(opcode)
        }
    } else if class == 0x6 {
        seq!["LD"@, x, kk]
    } else if class == 0x7 {
        seq!["ADD"@, x, kk]
    } else if class == 0x8 {
        arithmetic_words(opcode)
    } else if class == 0x9 {
        if op_n(opcode) == 0 {
            seq!["SNE"@, x, y]
        } else {
            data_words(opcode)
        }
    } else if class == 0xA {
        seq!["LD"@, "I"@, nnn]
    } else if class == 0xB {
        seq!["JP"@, register(0), nnn]
    } else if class == 0xC {
        seq!["RND"@, x, kk]
    } else if class == 0xD {
        seq!["DRW"@, x, y, decimal(op_n(opcode) as nat)]
    } else {
        special_words(opcode)
    }
}

/// The lines of one, two, three and four words, written out
proof fn lemma_line_of(a: Seq<char>, b: Seq<char>, c: Seq<char>, d: Seq<char>)
    ensures
        line_of(seq![a]) == a,
        line_of(seq![a, b]) == a + seq![' '] + b,
        line_of(seq![a, b, c]) == a + seq![' '] + b + seq![',', ' '] + c,
        line_of(seq![a, b, c, d]) == a + seq![' '] + b + seq![',', ' '] + c + seq![',', ' '] + d,
{
    reveal_with_fuel(joined, 5);
    assert(line_of(seq![a]) =~= a);
    assert(line_of(seq![a, b]) =~= a + seq![' '] + b);
    assert(line_of(seq![a, b, c]) =~= a + seq![' '] + b + seq![',', ' '] + c);
    assert(line_of(seq![a, b, c, d]) =~= a + seq![' '] + b + seq![',', ' '] + c + seq![',', ' ']
        + d);
}

/// The line for a word that encodes no instruction is made of its words
proof fn lemma_data_line(opcode: u16)
    ensures
        data_word(opcode) == line_of(data_words(opcode)),
{
    reveal_strlit(".word 0x");
    reveal_strlit(".word");
    reveal_strlit("0x");
    let value = "0x"@ + hex(opcode as nat, 4);
    lemma_line_of(".word"@, value, seq![], seq![]);
    assert(data_word(opcode) =~= ".word"@ + seq![' '] + value);
}

/// The operands of a line, as the disassembler writes them, are the words with their separators
proof fn lemma_operands(opcode: u16)
    ensures
        registers(opcode) == register(op_x(opcode)) + seq![',', ' '] + register(op_y(opcode)),
        register_and_byte(opcode) == register(op_x(opcode)) + seq![',', ' '] + byte_word(
            op_kk(opcode) as int,
        ),
        crate::disassembler::address(opcode) == address_word(op_nnn(opcode) as int),
{
    reveal_strlit(", ");
    reveal_strlit(", 0x");
    reveal_strlit("0x");
    assert(registers(opcode) =~= register(op_x(opcode)) + seq![',', ' '] + register(
        op_y(opcode),
    ));
    assert(register_and_byte(opcode) =~= register(op_x(opcode)) + seq![',', ' '] + byte_word(
        op_kk(opcode) as int,
    ));
}

/// The line for an `8xy_` word is made of its words
proof fn lemma_arithmetic_line(opcode: u16)
    ensures
        decoded_arithmetic(opcode) == line_of(arithmetic_words(opcode)),
{
    let n = op_n(opcode);
    let x = register(op_x(opcode));
    let y = register(op_y(opcode));
    lemma_operands(opcode);
    lemma_data_line(opcode);
    let m = arithmetic_words(opcode)[0];
    lemma_line_of(m, x, y, seq![]);
    reveal_strlit("LD ");
    reveal_strlit("LD");
    reveal_strlit("OR ");
    reveal_strlit("OR");
    reveal_strlit("AND ");
    reveal_strlit("AND");
    reveal_strlit("XOR ");
    reveal_strlit("XOR");
    reveal_strlit("ADD ");
    reveal_strlit("ADD");
    reveal_strlit("SUB ");
    reveal_strlit("SUB");
    reveal_strlit("SHR ");
    reveal_strlit("SHR");
    reveal_strlit("SUBN ");
    reveal_strlit("SUBN");
    reveal_strlit("SHL ");
    reveal_strlit("SHL");
    if n == 0 || n == 1 || n == 2 || n == 3 || n == 4 || n == 5 || n == 6 || n == 7 || n == 0xE {
        assert(arithmetic_words(opcode) =~= seq![m, x, y]);
        assert(decoded_arithmetic(opcode) =~= m + seq![' '] + x + seq![',', ' '] + y);
    }
}

/// The line for an `Ex__` or `Fx__` word is made of its words
proof fn lemma_special_line(opcode: u16)
    ensures
        decoded_special(opcode) == line_of(special_words(opcode)),
{
    let vx = register(op_x(opcode));
    let kk = op_kk(opcode);
    lemma_data_line(opcode);
    let words = special_words(opcode);
    if op_class(opcode) == 0xE {
        reveal_strlit("SKP ");
        reveal_strlit("SKP");
        reveal_strlit("SKNP ");
        reveal_strlit("SKNP");
        if kk == 0x9E || kk == 0xA1 {
            lemma_line_of(words[0], vx, seq![], seq![]);
            assert(words =~= seq![words[0], vx]);
            assert(decoded_special(opcode) =~= words[0] + seq![' '] + vx);
        }
    } else if kk == 0x07 || kk == 0x0A || kk == 0x65 {
        reveal_strlit("LD ");
        reveal_strlit("LD");
        reveal_strlit(", DT");
        reveal_strlit("DT");
        reveal_strlit(", K");
        reveal_strlit("K");
        reveal_strlit(", [I]");
        reveal_strlit("[I]");
        lemma_line_of("LD"@, vx, words[2], seq![]);
        assert(words =~= seq!["LD"@, vx, words[2]]);
        assert(decoded_special(opcode) =~= "LD"@ + seq![' '] + vx + seq![',', ' '] + words[2]);
    } else if kk == 0x15 || kk == 0x18 || kk == 0x1E || kk == 0x29 || kk == 0x33 || kk == 0x55 {
        reveal_strlit("LD");
        reveal_strlit("ADD");
        reveal_strlit("LD DT, ");
        reveal_strlit("DT");
        reveal_strlit("LD ST, ");
        reveal_strlit("ST");
        reveal_strlit("ADD I, ");
        reveal_strlit("I");
        reveal_strlit("LD F, ");
        reveal_strlit("F");
        reveal_strlit("LD B, ");
        reveal_strlit("B");
        reveal_strlit("LD [I], ");
        reveal_strlit("[I]");
        lemma_line_of(words[0], words[1], vx, seq![]);
        assert(words =~= seq![words[0], words[1], vx]);
        assert(decoded_special(opcode) =~= words[0] + seq![' '] + words[1] + seq![',', ' ']
            + vx);
    }
}

proof fn lemma_decoded_control(opcode: u16)
    requires
        op_class(opcode) == 0 || op_class(opcode) == 1 || op_class(opcode) == 2,
    ensures
        decoded(opcode) == line_of(line_words(opcode)),
{
    reveal(decoded);
    reveal(line_words);
    let nnn = address_word(op_nnn(opcode) as int);
    let words = line_words(opcode);
    lemma_operands(opcode);
    if opcode == 0x00E0 || opcode == 0x00EE {
        lemma_line_of(words[0], seq![], seq![], seq![]);
        assert(words =~= seq![words[0]]);
    } else {
        reveal_strlit("SYS ");
        reveal_strlit("SYS");
        reveal_strlit("JP ");
        reveal_strlit("JP");
        reveal_strlit("CALL ");
        reveal_strlit("CALL");
        lemma_line_of(words[0], nnn, seq![], seq![]);
        assert(words =~= seq![words[0], nnn]);
        assert(decoded(opcode) =~= words[0] + seq![' '] + nnn);
    }
}

proof fn lemma_decoded_byte(opcode: u16)
    requires
        op_class(opcode) == 3 || op_class(opcode) == 4 || op_class(opcode) == 6 || op_class(opcode)
            == 7 || op_class(opcode) == 0xC,
    ensures
        decoded(opcode) == line_of(line_words(opcode)),
{
    reveal(decoded);
    reveal(line_words);
    let x = register(op_x(opcode));
    let kk = byte_word(op_kk(opcode) as int);
    let words = line_words(opcode);
    lemma_operands(opcode);
    reveal_strlit("SE ");
    reveal_strlit("SE");
    reveal_strlit("SNE ");
    reveal_strlit("SNE");
    reveal_strlit("LD ");
    reveal_strlit("LD");
    reveal_strlit("ADD ");
    reveal_strlit("ADD");
    reveal_strlit("RND ");
    reveal_strlit("RND");
    lemma_line_of(words[0], x, kk, seq![]);
    assert(words =~= seq![words[0], x, kk]);
    assert(decoded(opcode) =~= words[0] + seq![' '] + x + seq![',', ' '] + kk);
}

proof fn lemma_decoded_pair(opcode: u16)
    requires
        op_class(opcode) == 5 || op_class(opcode) == 9,
    ensures
        decoded(opcode) == line_of(line_words(opcode)),
{
    reveal(decoded);
    reveal(line_words);
    let x = register(op_x(opcode));
    let y = register(op_y(opcode));
    let words = line_words(opcode);
    lemma_operands(opcode);
    lemma_data_line(opcode);
    if op_n(opcode) == 0 {
        reveal_strlit("SE ");
        reveal_strlit("SE");
        reveal_strlit("SNE ");
        reveal_strlit("SNE");
        lemma_line_of(words[0], x, y, seq![]);
        assert(words =~= seq![words[0], x, y]);
        assert(decoded(opcode) =~= words[0] + seq![' '] + x + seq![',', ' '] + y);
    }
}

proof fn lemma_decoded_far(opcode: u16)
    requires
        op_class(opcode) == 0xA || op_class(opcode) == 0xB,
    ensures
        decoded(opcode) == line_of(line_words(opcode)),
{
    reveal(decoded);
    reveal(line_words);
    let nnn = address_word(op_nnn(opcode) as int);
    let words = line_words(opcode);
    lemma_operands(opcode);
    reveal_strlit("LD I, ");
    reveal_strlit("LD");
    reveal_strlit("I");
    reveal_strlit("JP V0, ");
    reveal_strlit("JP");
    reveal_with_fuel(hex, 2);
    reveal_strlit("V");
    assert(register(0) =~= seq!['V', '0']);
    lemma_line_of(words[0], words[1], nnn, seq![]);
    assert(words =~= seq![words[0], words[1], nnn]);
    assert(decoded(opcode) =~= words[0] + seq![' '] + words[1] + seq![',', ' '] + nnn);
}

proof fn lemma_decoded_sprite(opcode: u16)
    requires
        op_class(opcode) == 0xD,
    ensures
        decoded(opcode) == line_of(line_words(opcode)),
{
    reveal(decoded);
    reveal(line_words);
    let x = register(op_x(opcode));
    let y = register(op_y(opcode));
    let words = line_words(opcode);
    lemma_operands(opcode);
    reveal_strlit("DRW ");
    reveal_strlit("DRW");
    reveal_strlit(", ");
    let n = decimal(op_n(opcode) as nat);
    lemma_line_of("DRW"@, x, y, n);
    assert(words =~= seq!["DRW"@, x, y, n]);
    assert(decoded(opcode) =~= "DRW"@ + seq![' '] + x + seq![',', ' '] + y + seq![',', ' '] + n);
}

/// The line for an instruction word is made of its words
pub proof fn lemma_decoded_line(opcode: u16)
    ensures
        decoded(opcode) == line_of(line_words(opcode)),
{
    reveal(decoded);
    reveal(line_words);
    let class = op_class(opcode);
    if class == 0 || class == 1 || class == 2 {
        lemma_decoded_control(opcode);
    } else if class == 3 || class == 4 || class == 6 || class == 7 || class == 0xC {
        lemma_decoded_byte(opcode);
    } else if class == 5 || class == 9 {
        lemma_decoded_pair(opcode);
    } else if class == 8 {
        lemma_arithmetic_line(opcode);
    } else if class == 0xA || class == 0xB {
        lemma_decoded_far(opcode);
    } else if class == 0xD {
        lemma_decoded_sprite(opcode);
    } else {
        lemma_special_line(opcode);
    }
}


// The words of the lines

/// Whether a word is made of upper case letters and brackets, and so is
/// plain and its own upper case
pub open spec fn is_fixed(word: Seq<char>) -> bool {
    &&& 0 < word.len() <= 5
    &&& forall|i: int|
        0 <= i < word.len() ==> 'A' <= #[trigger] word[i] <= 'Z' || word[i] == '[' || word[i]
            == ']'
}

/// A fixed word is plain and is its own upper case
proof fn lemma_fixed(word: Seq<char>)
    requires
        is_fixed(word),
    ensures
        is_plain(word),
        uppercase(word) == word,
        is_ascii(word),
{
    assert forall|i: int| 0 <= i < word.len() implies is_plain_char(#[trigger] word[i]) by {}
    assert(is_ascii(word));
    assert(uppercase(word) =~= word);
}

/// The mnemonics and the names that the disassembler writes are fixed words
proof fn lemma_fixed_words()
    ensures
        is_fixed("CLS"@),
        is_fixed("RET"@),
        is_fixed("SYS"@),
        is_fixed("JP"@),
        is_fixed("CALL"@),
        is_fixed("SE"@),
        is_fixed("SNE"@),
        is_fixed("LD"@),
        is_fixed("ADD"@),
        is_fixed("OR"@),
        is_fixed("AND"@),
        is_fixed("XOR"@),
        is_fixed("SUB"@),
        is_fixed("SHR"@),
        is_fixed("SUBN"@),
        is_fixed("SHL"@),
        is_fixed("RND"@),
        is_fixed("DRW"@),
        is_fixed("SKP"@),
        is_fixed("SKNP"@),
        is_fixed("I"@),
        is_fixed("DT"@),
        is_fixed("ST"@),
        is_fixed("F"@),
        is_fixed("B"@),
        is_fixed("K"@),
        is_fixed("[I]"@),
{
    reveal_strlit("CLS");
    reveal_strlit("RET");
    reveal_strlit("SYS");
    reveal_strlit("JP");
    reveal_strlit("CALL");
    reveal_strlit("SE");
    reveal_strlit("SNE");
    reveal_strlit("LD");
    reveal_strlit("ADD");
    reveal_strlit("OR");
    reveal_strlit("AND");
    reveal_strlit("XOR");
    reveal_strlit("SUB");
    reveal_strlit("SHR");
    reveal_strlit("SUBN");
    reveal_strlit("SHL");
    reveal_strlit("RND");
    reveal_strlit("DRW");
    reveal_strlit("SKP");
    reveal_strlit("SKNP");
    reveal_strlit("I");
    reveal_strlit("DT");
    reveal_strlit("ST");
    reveal_strlit("F");
    reveal_strlit("B");
    reveal_strlit("K");
    reveal_strlit("[I]");
}

/// The directive for data is plain and is in upper case `.WORD`
proof fn lemma_data_mnemonic()
    ensures
        is_plain(".word"@),
        uppercase(".word"@) == ".WORD"@,
        is_ascii(".word"@),
        ".word"@.len() == 5,
        ".word"@[0] == '.',
        is_plain(".byte"@),
        uppercase(".byte"@) == ".BYTE"@,
        is_ascii(".byte"@),
        ".byte"@.len() == 5,
        ".byte"@[0] == '.',
{
    reveal_strlit(".word");
    reveal_strlit(".WORD");
    reveal_strlit(".byte");
    reveal_strlit(".BYTE");
    assert forall|i: int| 0 <= i < 5 implies is_plain_char(#[trigger] ".word"@[i]) by {}
    assert forall|i: int| 0 <= i < 5 implies is_plain_char(#[trigger] ".byte"@[i]) by {}
    assert(is_ascii(".word"@));
    assert(is_ascii(".byte"@));
    assert(uppercase(".word"@) =~= ".WORD"@);
    assert(uppercase(".byte"@) =~= ".BYTE"@);
}

/// Whether some words make a line that the assembler reads back: one
/// to four plain words, the first an ASCII word of at most five characters
pub open spec fn are_plain(words: Seq<Seq<char>>) -> bool {
    &&& 1 <= words.len() <= 4
    &&& forall|j: int| 0 <= j < words.len() ==> is_plain(#[trigger] words[j])
    &&& is_ascii(words[0])
    &&& words[0].len() <= 5
}

/// A fixed word and up to three plain words after it are plain words
proof fn lemma_are_plain(m: Seq<char>, a: Seq<char>, b: Seq<char>, c: Seq<char>)
    requires
        is_fixed(m) || m == ".word"@,
    ensures
        are_plain(seq![m]),
        is_plain(a) ==> are_plain(seq![m, a]),
        is_plain(a) && is_plain(b) ==> are_plain(seq![m, a, b]),
        is_plain(a) && is_plain(b) && is_plain(c) ==> are_plain(seq![m, a, b, c]),
{
    lemma_data_mnemonic();
    if is_fixed(m) {
        lemma_fixed(m);
    }
}

proof fn lemma_data_words_plain(opcode: u16)
    ensures
        are_plain(data_words(opcode)),
{
    lemma_pow16();
    lemma_hex_word(opcode as nat, 4);
    lemma_are_plain(".word"@, "0x"@ + hex(opcode as nat, 4), seq![], seq![]);
}

proof fn lemma_arithmetic_words_plain(opcode: u16)
    ensures
        are_plain(arithmetic_words(opcode)),
{
    lemma_fixed_words();
    lemma_opcode_parts(opcode);
    lemma_data_words_plain(opcode);
    let x = register(op_x(opcode));
    let y = register(op_y(opcode));
    lemma_register_word(op_x(opcode));
    lemma_register_word(op_y(opcode));
    let words = arithmetic_words(opcode);
    if words != data_words(opcode) {
        lemma_are_plain(words[0], x, y, seq![]);
        assert(words =~= seq![words[0], x, y]);
    }
}

proof fn lemma_special_words_plain(opcode: u16)
    ensures
        are_plain(special_words(opcode)),
{
    lemma_fixed_words();
    lemma_opcode_parts(opcode);
    lemma_data_words_plain(opcode);
    let vx = register(op_x(opcode));
    lemma_register_word(op_x(opcode));
    let words = special_words(opcode);
    if words != data_words(opcode) {
        if words.len() == 2 {
            lemma_are_plain(words[0], vx, seq![], seq![]);
            assert(words =~= seq![words[0], vx]);
        } else {
            if is_fixed(words[1]) {
                lemma_fixed(words[1]);
            }
            if is_fixed(words[2]) {
                lemma_fixed(words[2]);
            }
            lemma_are_plain(words[0], words[1], words[2], seq![]);
            assert(words =~= seq![words[0], words[1], words[2]]);
        }
    }
}

/// The words of the line for an instruction word are plain words
pub proof fn lemma_words_plain(opcode: u16)
    ensures
        are_plain(line_words(opcode)),
{
    reveal(decoded);
    reveal(line_words);
    let class = op_class(opcode);
    let words = line_words(opcode);
    lemma_opcode_parts(opcode);
    lemma_data_words_plain(opcode);
    if class == 8 {
        lemma_arithmetic_words_plain(opcode);
    } else if class >= 0xE {
        lemma_special_words_plain(opcode);
    } else if words != data_words(opcode) {
        lemma_fixed_words();
        lemma_pow16();
        lemma_register_word(op_x(opcode));
        lemma_register_word(op_y(opcode));
        lemma_register_word(0);
        lemma_hex_word(op_kk(opcode) as nat, 2);
        lemma_hex_word(op_nnn(opcode) as nat, 3);
        lemma_decimal_word(op_n(opcode) as nat);
        if is_fixed("I"@) {
            lemma_fixed("I"@);
        }
        if words.len() == 1 {
            lemma_are_plain(words[0], seq![], seq![], seq![]);
            assert(words =~= seq![words[0]]);
        } else if words.len() == 2 {
            lemma_are_plain(words[0], words[1], seq![], seq![]);
            assert(words =~= seq![words[0], words[1]]);
        } else if words.len() == 3 {
            lemma_are_plain(words[0], words[1], words[2], seq![]);
            assert(words =~= seq![words[0], words[1], words[2]]);
        } else {
            lemma_are_plain(words[0], words[1], words[2], words[3]);
            assert(words =~= seq![words[0], words[1], words[2], words[3]]);
        }
    }
}


// The code of the lines

/// Whether a statement is made of the words of the line for an instruction word
pub open spec fn spells(s: StatementView, opcode: u16) -> bool {
    &&& s.wf()
    &&& s.instruction == line_words(opcode)[0]
    &&& s.arguments == line_words(opcode).skip(1)
}

/// Whether a statement is assembled into an instruction word
pub open spec fn assembles_to(
    s: StatementView,
    opcode: u16,
    labels: Map<Seq<char>, OpcodeAddress>,
    included: Result<Seq<u8>, ErrorView>,
) -> bool {
    dispatched(s, uppercase(s.instruction), labels, included) == Ok::<Seq<u8>, ErrorView>(
        halves(opcode),
    )
}

proof fn lemma_data_code(
    opcode: u16,
    s: StatementView,
    labels: Map<Seq<char>, OpcodeAddress>,
    included: Result<Seq<u8>, ErrorView>,
)
    requires
        s.wf(),
        s.instruction == data_words(opcode)[0],
        s.arguments == data_words(opcode).skip(1),
    ensures
        assembles_to(s, opcode, labels, included),
{
    lemma_data_mnemonic();
    lemma_dispatch_dot_word(s, labels, included);
    assert(s.arguments[0] == data_words(opcode).skip(1)[0]);
    lemma_data(s, opcode as int);
}

proof fn lemma_control_code(
    opcode: u16,
    s: StatementView,
    labels: Map<Seq<char>, OpcodeAddress>,
    included: Result<Seq<u8>, ErrorView>,
)
    requires
        spells(s, opcode),
        op_class(opcode) == 0 || op_class(opcode) == 1 || op_class(opcode) == 2,
    ensures
        assembles_to(s, opcode, labels, included),
{
    reveal(decoded);
    reveal(line_words);
    lemma_fixed_words();
    lemma_fixed(s.instruction);
    lemma_opcode_parts(opcode);
    let nnn = op_nnn(opcode) as int;
    if opcode == 0x00E0 || opcode == 0x00EE {
        lemma_dispatch_cls(s, labels, included);
        lemma_dispatch_ret(s, labels, included);
        lemma_no_arguments(s);
    } else {
        lemma_dispatch_sys(s, labels, included);
        lemma_dispatch_jp(s, labels, included);
        lemma_dispatch_call(s, labels, included);
        assert(s.arguments =~= seq![address_word(nnn)]);
        lemma_address_argument(s, labels, nnn);
    }
}

proof fn lemma_byte_code(
    opcode: u16,
    s: StatementView,
    labels: Map<Seq<char>, OpcodeAddress>,
    included: Result<Seq<u8>, ErrorView>,
)
    requires
        spells(s, opcode),
        op_class(opcode) == 3 || op_class(opcode) == 4 || op_class(opcode) == 6 || op_class(opcode)
            == 7 || op_class(opcode) == 0xC,
    ensures
        assembles_to(s, opcode, labels, included),
{
    reveal(decoded);
    reveal(line_words);
    lemma_fixed_words();
    lemma_fixed(s.instruction);
    lemma_opcode_parts(opcode);
    lemma_dispatch_se(s, labels, included);
    lemma_dispatch_sne(s, labels, included);
    lemma_dispatch_ld(s, labels, included);
    lemma_dispatch_add(s, labels, included);
    lemma_dispatch_rnd(s, labels, included);
    assert(s.arguments =~= seq![register(op_x(opcode)), byte_word(op_kk(opcode) as int)]);
    lemma_register_and_byte(s, labels, op_x(opcode), op_kk(opcode) as int);
}

proof fn lemma_pair_code(
    opcode: u16,
    s: StatementView,
    labels: Map<Seq<char>, OpcodeAddress>,
    included: Result<Seq<u8>, ErrorView>,
)
    requires
        spells(s, opcode),
        op_class(opcode) == 5 || op_class(opcode) == 9,
    ensures
        assembles_to(s, opcode, labels, included),
{
    reveal(decoded);
    reveal(line_words);
    lemma_opcode_parts(opcode);
    if op_n(opcode) == 0 {
        lemma_fixed_words();
        lemma_fixed(s.instruction);
        lemma_dispatch_se(s, labels, included);
        lemma_dispatch_sne(s, labels, included);
        assert(s.arguments =~= seq![register(op_x(opcode)), register(op_y(opcode))]);
        lemma_two_registers(s, labels, op_x(opcode), op_y(opcode));
    } else {
        lemma_data_code(opcode, s, labels, included);
    }
}

proof fn lemma_arithmetic_code(
    opcode: u16,
    s: StatementView,
    labels: Map<Seq<char>, OpcodeAddress>,
    included: Result<Seq<u8>, ErrorView>,
)
    requires
        spells(s, opcode),
        op_class(opcode) == 8,
    ensures
        assembles_to(s, opcode, labels, included),
{
    reveal(decoded);
    reveal(line_words);
    lemma_opcode_parts(opcode);
    if arithmetic_words(opcode) == data_words(opcode) {
        lemma_data_code(opcode, s, labels, included);
    } else {
        lemma_fixed_words();
        lemma_fixed(s.instruction);
        lemma_dispatch_ld(s, labels, included);
        lemma_dispatch_or(s, labels, included);
        lemma_dispatch_and(s, labels, included);
        lemma_dispatch_xor(s, labels, included);
        lemma_dispatch_add(s, labels, included);
        lemma_dispatch_sub(s, labels, included);
        lemma_dispatch_shr(s, labels, included);
        lemma_dispatch_subn(s, labels, included);
        lemma_dispatch_shl(s, labels, included);
        assert(s.arguments =~= seq![register(op_x(opcode)), register(op_y(opcode))]);
        lemma_two_registers(s, labels, op_x(opcode), op_y(opcode));
    }
}

proof fn lemma_far_code(
    opcode: u16,
    s: StatementView,
    labels: Map<Seq<char>, OpcodeAddress>,
    included: Result<Seq<u8>, ErrorView>,
)
    requires
        spells(s, opcode),
        op_class(opcode) == 0xA || op_class(opcode) == 0xB,
    ensures
        assembles_to(s, opcode, labels, included),
{
    reveal(decoded);
    reveal(line_words);
    lemma_fixed_words();
    lemma_fixed(s.instruction);
    lemma_opcode_parts(opcode);
    lemma_dispatch_ld(s, labels, included);
    lemma_dispatch_jp(s, labels, included);
    let nnn = op_nnn(opcode) as int;
    if op_class(opcode) == 0xA {
        assert(s.arguments =~= seq!["I"@, address_word(nnn)]);
    } else {
        assert(s.arguments =~= seq![register(0), address_word(nnn)]);
    }
    lemma_far_address(s, labels, nnn);
}

proof fn lemma_sprite_code(
    opcode: u16,
    s: StatementView,
    labels: Map<Seq<char>, OpcodeAddress>,
    included: Result<Seq<u8>, ErrorView>,
)
    requires
        spells(s, opcode),
        op_class(opcode) == 0xD,
    ensures
        assembles_to(s, opcode, labels, included),
{
    reveal(decoded);
    reveal(line_words);
    lemma_fixed_words();
    lemma_fixed(s.instruction);
    lemma_opcode_parts(opcode);
    lemma_dispatch_drw(s, labels, included);
    assert(s.arguments =~= seq![
        register(op_x(opcode)),
        register(op_y(opcode)),
        decimal(op_n(opcode) as nat),
    ]);
    lemma_sprite(s, op_x(opcode), op_y(opcode), op_n(opcode));
}

proof fn lemma_special_code(
    opcode: u16,
    s: StatementView,
    labels: Map<Seq<char>, OpcodeAddress>,
    included: Result<Seq<u8>, ErrorView>,
)
    requires
        spells(s, opcode),
        op_class(opcode) >= 0xE,
    ensures
        assembles_to(s, opcode, labels, included),
{
    reveal(decoded);
    reveal(line_words);
    lemma_opcode_parts(opcode);
    let x = op_x(opcode);
    let kk = op_kk(opcode);
    if special_words(opcode) == data_words(opcode) {
        lemma_data_code(opcode, s, labels, included);
    } else {
        lemma_fixed_words();
        lemma_fixed(s.instruction);
        if op_class(opcode) == 0xE {
            lemma_dispatch_skp(s, labels, included);
            lemma_dispatch_sknp(s, labels, included);
            assert(s.arguments =~= seq![register(x)]);
            lemma_one_register(s, x);
        } else {
            lemma_dispatch_ld(s, labels, included);
            lemma_dispatch_add(s, labels, included);
            assert(s.arguments.len() == 2);
            if kk == 0x07 || kk == 0x0A || kk == 0x65 {
                assert(s.arguments[0] == special_words(opcode)[1]);
                assert(s.arguments[1] == special_words(opcode)[2]);
                lemma_load_from(s, labels, x);
            } else {
                assert(s.arguments[0] == special_words(opcode)[1]);
                assert(s.arguments[1] == special_words(opcode)[2]);
                lemma_load_into(s, labels, x);
            }
        }
    }
}

/// A statement that is made of the words of the line for an
/// instruction word is assembled into that word
pub proof fn lemma_line_code(
    opcode: u16,
    s: StatementView,
    labels: Map<Seq<char>, OpcodeAddress>,
    included: Result<Seq<u8>, ErrorView>,
)
    requires
        spells(s, opcode),
    ensures
        assembles_to(s, opcode, labels, included),
{
    let class = op_class(opcode);
    if class == 0 || class == 1 || class == 2 {
        lemma_control_code(opcode, s, labels, included);
    } else if class == 3 || class == 4 || class == 6 || class == 7 || class == 0xC {
        lemma_byte_code(opcode, s, labels, included);
    } else if class == 5 || class == 9 {
        lemma_pair_code(opcode, s, labels, included);
    } else if class == 8 {
        lemma_arithmetic_code(opcode, s, labels, included);
    } else if class == 0xA || class == 0xB {
        lemma_far_code(opcode, s, labels, included);
    } else if class == 0xD {
        lemma_sprite_code(opcode, s, labels, included);
    } else {
        lemma_special_code(opcode, s, labels, included);
    }
}


// The text that the disassembler writes

/// Whether a line comes through the preprocessor as it is: it is not
/// empty, it holds no line feed and no semicolon, and no white space
/// stands at its ends
pub open spec fn is_clean(line: Seq<char>) -> bool {
    &&& line.len() > 0
    &&& forall|i: int| 0 <= i < line.len() ==> #[trigger] line[i] != '\n' && line[i] != ';'
    &&& !is_whitespace(line[0])
    &&& !is_whitespace(line.last())
}

/// The lines from line `k` on, each closed by a line feed
pub open spec fn text_from(lines: Seq<Seq<char>>, k: int) -> Seq<char>
    decreases lines.len() - k,
{
    if k < 0 || k >= lines.len() {
        seq![]
    } else {
        lines[k] + seq!['\n'] + text_from(lines, k + 1)
    }
}

/// The lines with their numbers, counted from 1
pub open spec fn numbered(lines: Seq<Seq<char>>) -> Seq<LineView> {
    Seq::new(lines.len(), |i: int| LineView { origin: (i + 1) as usize, text: lines[i] })
}

/// A line of plain words is clean, defines no label and opens and
/// closes no definition of a macro
pub proof fn lemma_plain_line(words_of_line: Seq<Seq<char>>)
    requires
        are_plain(words_of_line),
    ensures
        is_clean(line_of(words_of_line)),
        !is_label(line_of(words_of_line)),
        !opens_macro(line_of(words_of_line)),
        !closes_macro(line_of(words_of_line)),
{
    let line = line_of(words_of_line);
    lemma_line_shape(words_of_line, 0);
    assert forall|i: int| 0 <= i < line.len() implies #[trigger] line[i] != '\n' && line[i]
        != ';' by {
        let c = line[i];
        assert(is_plain_char(c) || c == ' ' || c == ',');
    }
    assert(line.skip(0) =~= line);
    lemma_tokens_of_joined(line, 0, words_of_line, 0);
    let first = words(line)[0];
    let token = tokens(line, 0)[0];
    assert(line.subrange(token.0, token.1) == words_of_line[0int + 0]);
    assert(first == words_of_line[0]);
    assert(uppercase(first).len() == first.len());
    reveal_strlit(".MACRO");
    reveal_strlit(".ENDMACRO");
}

/// A clean line is what the preprocessor makes of it
proof fn lemma_clean(line: Seq<char>)
    requires
        is_clean(line),
    ensures
        clean(line) == line,
{
    lemma_no_semicolon(line, 0);
    assert(line.take(line.len() as int) =~= line);
}

proof fn lemma_no_semicolon(line: Seq<char>, from: int)
    requires
        0 <= from <= line.len(),
        forall|i: int| 0 <= i < line.len() ==> #[trigger] line[i] != ';',
    ensures
        find_char(line, ';', from) == line.len(),
    decreases line.len() - from,
{
    if from < line.len() {
        lemma_no_semicolon(line, from + 1);
    }
}

/// The offset of line `k` in the text of the lines
pub open spec fn offset(lines: Seq<Seq<char>>, k: int) -> int
    decreases k,
{
    if k <= 0 {
        0
    } else {
        offset(lines, k - 1) + lines[k - 1].len() + 1
    }
}

/// The text of the lines from its offset on is the text of the lines from line `k` on
proof fn lemma_text_skip(lines: Seq<Seq<char>>, k: int)
    requires
        0 <= k <= lines.len(),
    ensures
        0 <= offset(lines, k) <= text_from(lines, 0).len(),
        text_from(lines, 0).skip(offset(lines, k)) == text_from(lines, k),
    decreases k,
{
    let text = text_from(lines, 0);
    if k == 0 {
        assert(text.skip(0) =~= text);
    } else {
        lemma_text_skip(lines, k - 1);
        let before = text_from(lines, k - 1);
        let start = offset(lines, k - 1);
        assert(before == lines[k - 1] + seq!['\n'] + text_from(lines, k));
        assert(text.skip(start) == before);
        assert(text.skip(offset(lines, k)) =~= text.skip(start).skip(lines[k - 1].len() as int + 1));
        assert(before.skip(lines[k - 1].len() as int + 1) =~= text_from(lines, k));
    }
}

/// The end of the line that starts at its offset is the line feed after it
proof fn lemma_line_end(text: Seq<char>, line: Seq<char>, start: int, i: int)
    requires
        0 <= start,
        0 <= i <= line.len(),
        start + line.len() < text.len(),
        forall|j: int| 0 <= j < line.len() ==> text[start + j] == #[trigger] line[j],
        forall|j: int| 0 <= j < line.len() ==> #[trigger] line[j] != '\n',
        text[start + line.len()] == '\n',
    ensures
        find_char(text, '\n', start + i) == start + line.len(),
    decreases line.len() - i,
{
    if i < line.len() {
        assert(text[start + i] == line[i]);
        lemma_line_end(text, line, start, i + 1);
    }
}

/// The preprocessor finds the clean lines of a text again, from line `k` on
proof fn lemma_cleaned_from(lines: Seq<Seq<char>>, k: int)
    requires
        0 <= k <= lines.len(),
        forall|i: int| 0 <= i < lines.len() ==> is_clean(#[trigger] lines[i]),
    ensures
        cleaned_from(text_from(lines, 0), offset(lines, k), k + 1) == numbered(lines).skip(k),
    decreases lines.len() - k,
{
    let text = text_from(lines, 0);
    let start = offset(lines, k);
    lemma_text_skip(lines, k);
    if k == lines.len() {
        assert(text.skip(start).len() == 0);
        assert(start == text.len());
        assert(text.subrange(start, start) =~= Seq::<char>::empty());
        assert(find_char(text, '\n', start) == start);
        assert(find_char(Seq::<char>::empty(), ';', 0) == 0);
        assert(Seq::<char>::empty().take(0) =~= Seq::<char>::empty());
        assert(clean(Seq::<char>::empty()) =~= Seq::<char>::empty());
        assert(cleaned_from(text, start, k + 1) =~= numbered(lines).skip(k));
    } else {
        let line = lines[k];
        let tail = text.skip(start);
        assert(tail == line + seq!['\n'] + text_from(lines, k + 1));
        assert(tail.len() == line.len() + 1 + text_from(lines, k + 1).len());
        assert(start + tail.len() == text.len());
        assert forall|j: int| 0 <= j < line.len() implies text[start + j] == #[trigger] line[j] by {
            assert(tail[j] == text[start + j]);
            assert(tail[j] == line[j]);
        }
        assert(text[start + line.len()] == '\n') by {
            assert(tail[line.len() as int] == text[start + line.len()]);
            assert(tail[line.len() as int] == seq!['\n'][0]);
        }
        assert(is_clean(line));
        lemma_line_end(text, line, start, 0);
        let end = start + line.len();
        assert(text.subrange(start, end) =~= line);
        lemma_clean(line);
        lemma_text_skip(lines, k + 1);
        lemma_cleaned_from(lines, k + 1);
        assert(offset(lines, k + 1) == end + 1);
        assert(end < text.len());
        assert(cleaned_from(text, start, k + 1) == seq![
            LineView { origin: (k + 1) as usize, text: line },
        ] + cleaned_from(text, end + 1, k + 2));
        assert(cleaned_from(text, start, k + 1) =~= numbered(lines).skip(k));
    }
}

/// Lines that open no definition define no macro, from line `from` on
proof fn lemma_collected(lines: Seq<LineView>, from: int)
    requires
        0 <= from <= lines.len(),
        forall|i: int| 0 <= i < lines.len() ==> !opens_macro(#[trigger] lines[i].text),
    ensures
        collected(lines, from) == (Seq::<MacroView>::empty(), lines.skip(from)),
    decreases lines.len() - from,
{
    if from < lines.len() {
        assert(!opens_macro(lines[from].text));
        assert(definition_at(lines, from) is None);
        lemma_collected(lines, from + 1);
        assert(seq![lines[from]] + lines.skip(from + 1) =~= lines.skip(from));
    } else {
        assert(lines.skip(from) =~= Seq::<LineView>::empty());
    }
}

/// A text of clean lines that open no definition of a macro is
/// preprocessed into these lines
pub proof fn lemma_preprocessed(lines: Seq<Seq<char>>)
    requires
        forall|i: int| 0 <= i < lines.len() ==> is_clean(#[trigger] lines[i]),
        forall|i: int| 0 <= i < lines.len() ==> !opens_macro(#[trigger] lines[i]),
    ensures
        preprocessed(text_from(lines, 0)) == Ok::<Seq<Seq<char>>, ErrorView>(lines),
{
    let text = text_from(lines, 0);
    lemma_cleaned_from(lines, 0);
    assert(numbered(lines).skip(0) =~= numbered(lines));
    assert(cleaned(text) == numbered(lines));
    assert forall|i: int| 0 <= i < numbered(lines).len() implies !opens_macro(
        #[trigger] numbered(lines)[i].text,
    ) by {
        assert(numbered(lines)[i].text == lines[i]);
    }
    lemma_collected(numbered(lines), 0);
    assert(numbered(lines).skip(0) =~= numbered(lines));
    let done = numbered(lines);
    assert(expanded_all(Seq::<MacroView>::empty(), done, 0) == Ok::<Seq<LineView>, ErrorView>(
        done,
    ));
    assert(Seq::new(done.len(), |i: int| done[i].text) =~= lines);
}


// The round trip

/// The number of lines that the disassembler writes for some bytes
pub open spec fn count(bytes: Seq<u8>) -> int {
    (bytes.len() as int + 1) / 2
}

/// The instruction word that line `i` stands for
pub open spec fn word_at(bytes: Seq<u8>, i: int) -> u16 {
    (bytes[2 * i] * 256 + bytes[2 * i + 1]) as u16
}

/// The words of line `i`
pub open spec fn entry_words(bytes: Seq<u8>, i: int) -> Seq<Seq<char>> {
    if 2 * i + 1 < bytes.len() {
        line_words(word_at(bytes, i))
    } else {
        seq![".byte"@, byte_word(bytes[2 * i] as int)]
    }
}

/// The bytes that line `i` stands for
pub open spec fn entry_code(bytes: Seq<u8>, i: int) -> Seq<u8> {
    if 2 * i + 1 < bytes.len() {
        seq![bytes[2 * i], bytes[2 * i + 1]]
    } else {
        seq![bytes[2 * i]]
    }
}

/// The lines that the disassembler writes for some bytes
pub open spec fn listing(bytes: Seq<u8>) -> Seq<Seq<char>> {
    Seq::new(count(bytes) as nat, |i: int| line_of(entry_words(bytes, i)))
}

/// The statements that the lines are lexed into
pub open spec fn statements(bytes: Seq<u8>) -> Seq<StatementView> {
    Seq::new(
        count(bytes) as nat,
        |i: int| lexed(listing(bytes)[i], (i + 1) as usize).unwrap(),
    )
}

/// The disassembly from line `k` on is the text of the lines from line `k` on
proof fn lemma_disassembled(bytes: Seq<u8>, k: int)
    requires
        0 <= k,
        2 * k <= bytes.len(),
    ensures
        disassembled(bytes.skip(2 * k)) == text_from(listing(bytes), k),
    decreases count(bytes) - k,
{
    let rest = bytes.skip(2 * k);
    let lines = listing(bytes);
    reveal_strlit("\n");
    if rest.len() == 0 {
        assert(k == count(bytes));
    } else if rest.len() == 1 {
        reveal_strlit(".byte 0x");
        reveal_strlit(".byte");
        reveal_strlit("0x");
        let value = byte_word(bytes[2 * k] as int);
        lemma_line_of(".byte"@, value, seq![], seq![]);
        assert(rest[0] == bytes[2 * k]);
        assert(lines[k] == line_of(seq![".byte"@, value]));
        assert(text_from(lines, k + 1) =~= Seq::<char>::empty());
        assert(disassembled(rest) =~= lines[k] + seq!['\n'] + text_from(lines, k + 1));
    } else {
        lemma_disassembled(bytes, k + 1);
        assert(rest.skip(2) =~= bytes.skip(2 * (k + 1)));
        assert(rest[0] == bytes[2 * k] && rest[1] == bytes[2 * k + 1]);
        lemma_decoded_line(word_at(bytes, k));
        assert(lines[k] == decoded(word_at(bytes, k)));
        assert(disassembled(rest) =~= lines[k] + seq!['\n'] + text_from(lines, k + 1));
    }
}

/// What holds of every line that the disassembler writes: its words
/// are plain, and the statement of these words is assembled into the
/// bytes that the line stands for
proof fn lemma_entry(
    bytes: Seq<u8>,
    i: int,
    s: StatementView,
    labels: Map<Seq<char>, OpcodeAddress>,
    included: Result<Seq<u8>, ErrorView>,
)
    requires
        0 <= i < count(bytes),
    ensures
        are_plain(entry_words(bytes, i)),
        s.wf() && s.instruction == entry_words(bytes, i)[0] && s.arguments == entry_words(
            bytes,
            i,
        ).skip(1) ==> dispatched(s, uppercase(s.instruction), labels, included) == Ok::<
            Seq<u8>,
            ErrorView,
        >(entry_code(bytes, i)),
{
    let spelled = s.wf() && s.instruction == entry_words(bytes, i)[0] && s.arguments
        == entry_words(bytes, i).skip(1);
    if 2 * i + 1 < bytes.len() {
        let opcode = word_at(bytes, i);
        lemma_words_plain(opcode);
        assert(halves(opcode) =~= entry_code(bytes, i));
        if spelled {
            lemma_line_code(opcode, s, labels, included);
        }
    } else {
        let value = bytes[2 * i] as int;
        lemma_data_mnemonic();
        lemma_pow16();
        lemma_hex_word(value as nat, 2);
        let these = entry_words(bytes, i);
        assert forall|j: int| 0 <= j < these.len() implies is_plain(#[trigger] these[j]) by {}
        if spelled {
            lemma_dispatch_dot_byte(s, labels, included);
            assert(s.arguments[0] == these.skip(1)[0]);
            lemma_data(s, value);
        }
    }
}

/// The lines that the disassembler writes are preprocessed into themselves
proof fn lemma_listing_preprocessed(bytes: Seq<u8>)
    ensures
        preprocessed(disassembled(bytes)) == Ok::<Seq<Seq<char>>, ErrorView>(listing(bytes)),
{
    let lines = listing(bytes);
    assert(bytes.skip(0) =~= bytes);
    lemma_disassembled(bytes, 0);
    assert forall|i: int| 0 <= i < lines.len() implies is_clean(#[trigger] lines[i])
        && !opens_macro(lines[i]) by {
        let s = arbitrary::<StatementView>();
        lemma_entry(bytes, i, s, Map::empty(), Ok(seq![]));
        lemma_plain_line(entry_words(bytes, i));
    }
    lemma_preprocessed(lines);
}

/// The first pass finds the statements of the lines, and no label
proof fn lemma_listing_scanned(
    bytes: Seq<u8>,
    n: int,
    files: Seq<FileView>,
    active: Seq<Seq<char>>,
)
    requires
        0 <= n <= count(bytes),
    ensures
        scanned(listing(bytes), n, files, active) matches Ok(pass) && pass.labels == Map::<
            Seq<char>,
            OpcodeAddress,
        >::empty() && pass.statements == statements(bytes).take(n),
    decreases n,
{
    let lines = listing(bytes);
    if n == 0 {
        assert(statements(bytes).take(0) =~= Seq::<StatementView>::empty());
    } else {
        lemma_listing_scanned(bytes, n - 1, files, active);
        let pass = scanned(lines, n - 1, files, active)->Ok_0;
        let line = lines[n - 1];
        let these = entry_words(bytes, n - 1);
        let s = statements(bytes)[n - 1];
        let included = include_code(s, files, active);
        lemma_entry(bytes, n - 1, s, pass.labels, included);
        lemma_plain_line(these);
        lemma_lexed_line(these, n as usize);
        assert(lexed(line, n as usize) == Some(s));
        assert(statement_code(s, pass.labels, files, active) == dispatched(
            s,
            uppercase(s.instruction),
            pass.labels,
            included,
        ));
        let next = scanned_line(pass, line, n as usize, files, active);
        assert(next is Ok);
        assert(next->Ok_0.statements == pass.statements.push(s));
        assert(statements(bytes).take(n - 1).push(s) =~= statements(bytes).take(n));
        assert(scanned(lines, n, files, active) == next);
    }
}

/// The second pass generates the bytes that the lines stand for
proof fn lemma_listing_generated(
    bytes: Seq<u8>,
    n: int,
    labels: Map<Seq<char>, OpcodeAddress>,
    files: Seq<FileView>,
    active: Seq<Seq<char>>,
)
    requires
        0 <= n <= count(bytes),
    ensures
        generated(statements(bytes), n, labels, files, active) == Ok::<Seq<u8>, ErrorView>(
            bytes.take(if 2 * n <= bytes.len() {
                2 * n
            } else {
                bytes.len() as int
            }),
        ),
    decreases n,
{
    if n == 0 {
        assert(bytes.take(0) =~= Seq::<u8>::empty());
    } else {
        lemma_listing_generated(bytes, n - 1, labels, files, active);
        let these = entry_words(bytes, n - 1);
        let s = statements(bytes)[n - 1];
        let included = include_code(s, files, active);
        lemma_entry(bytes, n - 1, s, labels, included);
        lemma_lexed_line(these, n as usize);
        assert(statement_code(s, labels, files, active) == dispatched(
            s,
            uppercase(s.instruction),
            labels,
            included,
        ));
        let end = if 2 * n <= bytes.len() {
            2 * n
        } else {
            bytes.len() as int
        };
        assert(bytes.take(2 * (n - 1)) + entry_code(bytes, n - 1) =~= bytes.take(end));
    }
}

/// The text that the disassembler writes for some bytes is assembled
/// into these bytes again, whatever the bytes: the disassembly of
/// assembled code assembles to the same code.
pub proof fn law_disassembly_assembles_back(
    bytes: Seq<u8>,
    files: Seq<FileView>,
    active: Seq<Seq<char>>,
)
    ensures
        assembled(disassembled(bytes), files, active) == Ok::<Seq<u8>, ErrorView>(bytes),
{
    let lines = listing(bytes);
    lemma_listing_preprocessed(bytes);
    lemma_listing_scanned(bytes, count(bytes), files, active);
    let pass = scanned(lines, count(bytes), files, active)->Ok_0;
    assert(statements(bytes).take(count(bytes)) =~= statements(bytes));
    lemma_listing_generated(bytes, count(bytes), pass.labels, files, active);
    assert(bytes.take(bytes.len() as int) =~= bytes);
}

} // verus!
