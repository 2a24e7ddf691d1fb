//! Converts CHIP-8 assembly code into bytecode in a two-pass manner
//!
//! The first pass resolves labels and generates a symbol table, while
//! the second pass generates the bytecode.
//!
//! Comments start with a semicolon (`;`) and continue to the end of the line,
//! may start both at the beginning or at the end of a line. Comments are fully
//! ignored by the assembler.
//!
//! Labels, instructions and directives can be indented as you wish. Labels
//! are case-sensitive, while instructions and directives are not. Labels are
//! defined with a colon at the end of the line, for example:
//!
//! ```text
//! label:
//!     LD V0, 0  ; set V0 to 0
//!     loop:
//!         ADD V0, 1  ; increment V0 by 1
//!         SE V0, 10  ; if V0 is equal to 10, skip the jump
//!         JP loop  ; jump to the label "loop"
//! done:
//!     CLS
//! ```
//!
//! The assembler supports the following instructions:
//! - CLS: clear the display
//! - RET: return from a subroutine
//! - SYS addr: jump to a machine code routine
//! - JP addr, JP V0, addr: jump to an address or label
//! - CALL addr: call a subroutine (address or label)
//! - SE Vx, Vy; SE Vx, byte: skip next instruction if equal
//! - SNE Vx, Vy; SNE Vx, byte: skip next instruction if not equal
//! - LD: load a value into a register:
//!     - LD Vx, byte: load the byte into register Vx
//!     - LD Vx, Vy: load the value of register Vy into register Vx
//!     - LD I, addr: load the address `addr` or a label into register I
//!     - LD Vx, DT: load the value of delay timer into register Vx
//!     - LD Vx, K: load the value of the key pressed into register Vx
//!     - LD DT, Vx: load the value of register Vx into the delay timer
//!     - LD ST, Vx: load the value of register Vx into the sound timer
//!     - LD F, Vx: load the location of the sprite for digit Vx into register I
//!     - LD B, Vx: store the value of register Vx in BCD format in memory locations I, I+1, and I+2
//!     - LD \[I\], Vx: store the values of registers V0..Vx in memory locations I, I+1, ...
//!     - LD Vx, \[I\]: load the values of memory locations I, I+1, ... into registers V0..Vx
//! - ADD Vx, Vy; ADD Vx, byte; ADD I, Vx: add a value to a register
//! - OR Vx, Vy; AND Vx, Vy; XOR Vx, Vy: bitwise operations
//! - SUB Vx, Vy; SUBN Vx, Vy: subtraction
//! - SHR Vx, Vy; SHL Vx, Vy: shifts
//! - RND Vx, byte: generate a random number, AND it with the byte, and store it in a register
//! - DRW Vx, Vy, nibble: draw a sprite with a height of nibble pixels at a position (Vx, Vy)
//! - SKP Vx; SKNP Vx: skip next instruction if the key with the value of Vx is, or is not, pressed
//!
//! The assembler supports the following directives:
//! - .BYTE byte, .DB byte: store a single byte
//! - .WORD word, .DW word: store a 16-bit word (2 bytes)
//! - .TEXT string, .ASCII string: store a string
//! - .FILL n, byte: fill the memory with a value
//! - .SPACE n: reserve a number of bytes
//! - .INCLUDE path: the bytecode of another file
//! - .WARN message: a warning
//! - .ERROR message: an error
//! - .MACRO name parameters, .ENDMACRO: define a macro
//!
//! The assembler reads no files. The files that `.INCLUDE` may name are
//! handed to it, each with its path and its text.

pub mod codegen_utils;
pub mod directives;
pub mod error;
pub mod instructions;
pub mod laws;
pub mod lexer;
pub mod preprocessor;
pub mod statement;

pub use error::Error;
pub use error::underline_spans;
pub use statement::{OpcodeAddress, SymbolTable};

use crate::assembler::directives::{
    _error, _include, byte, byte_code, error_code, fill, fill_code, space, space_code, text,
    text_code, warn, warn_code, word, word_code,
};
use crate::assembler::error::{emitted, ErrorView};
use crate::assembler::instructions::{
    add_code, and, and_code, call, call_code, cls, cls_code, drw, drw_code, jp, jp_code, ld,
    ld_code, or, or_code, ret, ret_code, rnd, rnd_code, se, se_code, shl, shl_code, shr,
    shr_code, sknp, sknp_code, skp, skp_code, sne, sne_code, sub_code, subn, subn_code, sys,
    sys_code, xor, xor_code,
};
use crate::assembler::lexer::{lex, lex_statement, lexed, tokens};
use crate::assembler::preprocessor::{preprocess, preprocessed};
use crate::assembler::statement::{Statement, StatementView, TokenSpan};
use crate::text::{chars_of, str_eq, string_of, strip_bounds, to_upper, trim_end_matches, uppercase};
use vstd::prelude::*;

verus! {

/// Every instruction takes two bytes
pub const BYTES_PER_INSTRUCTION: u16 = 2;

/// A file that `.INCLUDE` can name
pub struct SourceFile {
    pub path: String,
    pub text: String,
}

/// What a [`SourceFile`] holds
pub struct FileView {
    pub path: Seq<char>,
    pub text: Seq<char>,
}

impl View for SourceFile {
    type V = FileView;

    open spec fn view(&self) -> FileView {
        FileView { path: self.path@, text: self.text@ }
    }
}

/// The views of some files
pub open spec fn file_views(files: Seq<&SourceFile>) -> Seq<FileView> {
    Seq::new(files.len(), |i: int| files[i]@)
}

/// The views of some paths
pub open spec fn path_views(paths: Seq<&str>) -> Seq<Seq<char>> {
    Seq::new(paths.len(), |i: int| paths[i]@)
}

/// The index of the first file at or after `from` with the given path,
/// or the number of files where there is none
pub open spec fn position(files: Seq<FileView>, path: Seq<char>, from: int) -> int
    decreases files.len() - from,
{
    if from < 0 || from >= files.len() {
        files.len() as int
    } else if files[from].path == path {
        from
    } else {
        position(files, path, from + 1)
    }
}

/// Where `position` stops short of the end, the file has the path
pub proof fn lemma_position(files: Seq<FileView>, path: Seq<char>, from: int)
    requires
        0 <= from <= files.len(),
    ensures
        from <= position(files, path, from) <= files.len(),
        position(files, path, from) < files.len() ==> files[position(files, path, from)].path
            == path,
    decreases files.len() - from,
{
    if from < files.len() && files[from].path != path {
        lemma_position(files, path, from + 1);
    }
}

/// What the first pass has found so far
pub struct PassView {
    /// The labels, each with its address in the bytecode
    pub labels: Map<Seq<char>, OpcodeAddress>,
    /// The statements, in order
    pub statements: Seq<StatementView>,
    /// The address of the next statement in the bytecode
    pub address: OpcodeAddress,
}

/// Whether a line defines a label: it ends with a colon and holds no
/// other token
pub open spec fn is_label(line: Seq<char>) -> bool {
    line.len() > 0 && line.last() == ':' && tokens(line, 0).len() == 1
}

/// Whether a line defines a label
pub fn defines_label(line: &[char]) -> (label: bool)
    ensures
        label == is_label(line@),
{
    line.len() > 0 && line[line.len() - 1] == ':' && lex(line).len() == 1
}

/// Whether a statement is a directive: its mnemonic begins with a dot
pub open spec fn is_directive(s: StatementView) -> bool {
    s.instruction.len() > 0 && s.instruction[0] == '.'
}

/// The error for a line that is no label and holds no token
pub open spec fn no_instruction(line_number: usize, line: Seq<char>) -> ErrorView {
    ErrorView::UnknownInstruction {
        instruction: seq![],
        instruction_span: TokenSpan { start: 0, end: 0 },
        line_number,
        line,
    }
}

/// What `.INCLUDE` reports when the file is already being assembled
pub open spec fn cyclic_include(s: StatementView) -> ErrorView {
    ErrorView::UserError { message: "cyclic include"@, line_number: s.line_number, line: s.line }
}

/// `.INCLUDE`: one argument, and the bytecode of the file that it names.
/// The file is looked up among `files` by its path; while it is assembled
/// it is one of the `active` files, and to include an active file again is
/// an error. Every error of the file comes wrapped in an error that names
/// the file.
pub open spec fn include_code(
    s: StatementView,
    files: Seq<FileView>,
    active: Seq<Seq<char>>,
) -> Result<Seq<u8>, ErrorView>
    decreases files.len(), 0nat, 0nat,
{
    match s.assert_n_arguments(1) {
        Err(error) => Err(error),
        Ok(_) => match s.parse_string(0) {
            Err(error) => Err(error),
            Ok(path) => {
                let at = position(files, path, 0);
                let inner = if active.contains(path) {
                    Err(cyclic_include(s))
                } else if 0 <= at < files.len() {
                    assembled(files[at].text, files.remove(at), active.push(path))
                } else {
                    Err(ErrorView::ReadError { path })
                };
                match inner {
                    Ok(code) => Ok(code),
                    Err(error) => Err(
                        ErrorView::IncludeError {
                            path,
                            error: Box::new(error),
                            line_number: s.line_number,
                            line: s.line,
                        },
                    ),
                }
            },
        },
    }
}

/// The code of a statement whose mnemonic in upper case is `mnemonic`,
/// where `included` is what `.INCLUDE` makes of it
#[verifier::opaque]
pub open spec fn dispatched(
    s: StatementView,
    mnemonic: Seq<char>,
    labels: Map<Seq<char>, OpcodeAddress>,
    included: Result<Seq<u8>, ErrorView>,
) -> Result<Seq<u8>, ErrorView> {
    if mnemonic == "CLS"@ {
        cls_code(s)
    } else if mnemonic == "RET"@ {
        ret_code(s)
    } else if mnemonic == "SYS"@ {
        sys_code(s, labels)
    } else if mnemonic == "JP"@ {
        jp_code(s, labels)
    } else if mnemonic == "CALL"@ {
        call_code(s, labels)
    } else if mnemonic == "SE"@ {
        se_code(s)
    } else if mnemonic == "SNE"@ {
        sne_code(s)
    } else if mnemonic == "LD"@ {
        ld_code(s, labels)
    } else if mnemonic == "ADD"@ {
        add_code(s)
    } else if mnemonic == "OR"@ {
        or_code(s)
    } else if mnemonic == "AND"@ {
        and_code(s)
    } else if mnemonic == "XOR"@ {
        xor_code(s)
    } else if mnemonic == "SUB"@ {
        sub_code(s)
    } else if mnemonic == "SHR"@ {
        shr_code(s)
    } else if mnemonic == "SUBN"@ {
        subn_code(s)
    } else if mnemonic == "SHL"@ {
        shl_code(s)
    } else if mnemonic == "RND"@ {
        rnd_code(s)
    } else if mnemonic == "DRW"@ {
        drw_code(s)
    } else if mnemonic == "SKP"@ {
        skp_code(s)
    } else if mnemonic == "SKNP"@ {
        sknp_code(s)
    } else if mnemonic == ".BYTE"@ || mnemonic == ".DB"@ {
        byte_code(s)
    } else if mnemonic == ".WORD"@ || mnemonic == ".DW"@ {
        word_code(s)
    } else if mnemonic == ".TEXT"@ || mnemonic == ".ASCII"@ {
        text_code(s)
    } else if mnemonic == ".FILL"@ {
        fill_code(s)
    } else if mnemonic == ".SPACE"@ {
        space_code(s)
    } else if mnemonic == ".INCLUDE"@ {
        included
    } else if mnemonic == ".WARN"@ {
        warn_code(s)
    } else if mnemonic == ".ERROR"@ {
        error_code(s)
    } else {
        Err(
            ErrorView::UnknownInstruction {
                instruction: s.instruction,
                instruction_span: s.instruction_span,
                line_number: s.line_number,
                line: s.line,
            },
        )
    }
}

/// The code of a statement: its mnemonic counts without regard to case
pub open spec fn statement_code(
    s: StatementView,
    labels: Map<Seq<char>, OpcodeAddress>,
    files: Seq<FileView>,
    active: Seq<Seq<char>>,
) -> Result<Seq<u8>, ErrorView>
    decreases files.len(), 2nat, 0nat,
{
    dispatched(s, uppercase(s.instruction), labels, include_code(s, files, active))
}

/// The address `size` bytes after `address`, and the last address of
/// sixteen bits where that would lie beyond it
pub open spec fn advanced(address: OpcodeAddress, size: nat) -> OpcodeAddress {
    if address + size > 0xFFFF {
        0xFFFF
    } else {
        (address + size) as u16
    }
}

/// What the first pass makes of one more line. A label takes the address
/// of the next statement. A statement moves that address on: an
/// instruction by two bytes, a directive by the length of its code, which
/// is generated with the labels found so far. An address that would pass
/// the last one of sixteen bits stays there.
pub open spec fn scanned_line(
    pass: PassView,
    line: Seq<char>,
    line_number: usize,
    files: Seq<FileView>,
    active: Seq<Seq<char>>,
) -> Result<PassView, ErrorView>
    decreases files.len(), 3nat, 0nat,
{
    if is_label(line) {
        Ok(PassView { labels: pass.labels.insert(trim_end_matches(line, ':'), pass.address), ..pass })
    } else {
        match lexed(line, line_number) {
            None => Err(no_instruction(line_number, line)),
            Some(s) => if is_directive(s) {
                match statement_code(s, pass.labels, files, active) {
                    Err(error) => Err(error),
                    Ok(code) => Ok(
                        PassView {
                            statements: pass.statements.push(s),
                            address: advanced(pass.address, code.len()),
                            ..pass
                        },
                    ),
                }
            } else {
                Ok(
                    PassView {
                        statements: pass.statements.push(s),
                        address: advanced(pass.address, 2),
                        ..pass
                    },
                )
            },
        }
    }
}

/// What the first pass has found after the first `n` lines. The lines
/// are numbered from 1.
pub open spec fn scanned(
    lines: Seq<Seq<char>>,
    n: int,
    files: Seq<FileView>,
    active: Seq<Seq<char>>,
) -> Result<PassView, ErrorView>
    decreases files.len(), 4nat, n,
{
    if n <= 0 {
        Ok(PassView { labels: Map::empty(), statements: seq![], address: 0 })
    } else {
        match scanned(lines, n - 1, files, active) {
            Err(error) => Err(error),
            Ok(pass) => scanned_line(pass, lines[n - 1], n as usize, files, active),
        }
    }
}

/// The code of the first `n` statements, one after the other
pub open spec fn generated(
    statements: Seq<StatementView>,
    n: int,
    labels: Map<Seq<char>, OpcodeAddress>,
    files: Seq<FileView>,
    active: Seq<Seq<char>>,
) -> Result<Seq<u8>, ErrorView>
    decreases files.len(), 4nat, n,
{
    if n <= 0 {
        Ok(seq![])
    } else {
        match generated(statements, n - 1, labels, files, active) {
            Err(error) => Err(error),
            Ok(code) => match statement_code(statements[n - 1], labels, files, active) {
                Err(error) => Err(error),
                Ok(more) => Ok(code + more),
            },
        }
    }
}

/// The bytecode of a source: it is preprocessed, the first pass finds
/// the labels and the statements, and the second pass generates the code
/// of the statements with all the labels known. The first error ends the
/// assembly.
pub open spec fn assembled(source: Seq<char>, files: Seq<FileView>, active: Seq<Seq<char>>) -> Result<
    Seq<u8>,
    ErrorView,
>
    decreases files.len(), 5nat, 0nat,
{
    match preprocessed(source) {
        Err(error) => Err(error),
        Ok(lines) => match scanned(lines, lines.len() as int, files, active) {
            Err(error) => Err(error),
            Ok(pass) => generated(
                pass.statements,
                pass.statements.len() as int,
                pass.labels,
                files,
                active,
            ),
        },
    }
}

/// The bytecode of the file with the given path
pub open spec fn assembled_file(path: Seq<char>, files: Seq<FileView>) -> Result<
    Seq<u8>,
    ErrorView,
> {
    let at = position(files, path, 0);
    if 0 <= at < files.len() {
        assembled(files[at].text, files.remove(at), seq![path])
    } else {
        Err(ErrorView::ReadError { path })
    }
}


/// The views of some files
pub open spec fn source_views(files: Seq<SourceFile>) -> Seq<FileView> {
    Seq::new(files.len(), |i: int| files[i]@)
}

/// The views of some statements
pub open spec fn statement_views(statements: Seq<Statement>) -> Seq<StatementView> {
    Seq::new(statements.len(), |i: int| statements[i]@)
}

/// The views of some lines
pub open spec fn line_texts(lines: Seq<String>) -> Seq<Seq<char>> {
    Seq::new(lines.len(), |i: int| lines[i]@)
}

/// Once a line has failed, more lines do not mend it
proof fn lemma_scanned_fails(
    lines: Seq<Seq<char>>,
    n: int,
    m: int,
    files: Seq<FileView>,
    active: Seq<Seq<char>>,
)
    requires
        0 <= n <= m,
        scanned(lines, n, files, active) is Err,
    ensures
        scanned(lines, m, files, active) == scanned(lines, n, files, active),
    decreases m - n,
{
    if n < m {
        lemma_scanned_fails(lines, n, m - 1, files, active);
    }
}

/// Once a statement has failed, more statements do not mend it
proof fn lemma_generated_fails(
    statements: Seq<StatementView>,
    n: int,
    m: int,
    labels: Map<Seq<char>, OpcodeAddress>,
    files: Seq<FileView>,
    active: Seq<Seq<char>>,
)
    requires
        0 <= n <= m,
        generated(statements, n, labels, files, active) is Err,
    ensures
        generated(statements, m, labels, files, active) == generated(
            statements,
            n,
            labels,
            files,
            active,
        ),
    decreases m - n,
{
    if n < m {
        lemma_generated_fails(statements, n, m - 1, labels, files, active);
    }
}

/// Generate the code of a statement whose instruction in upper case is `mnemonic`
pub fn dispatch<'f>(
    statement: &Statement,
    mnemonic: &str,
    symbol_table: &SymbolTable,
    files: &Vec<&'f SourceFile>,
    active: &Vec<&'f str>,
) -> (code: Result<Vec<u8>, Error>)
    ensures
        emitted(code) == dispatched(
            statement@,
            mnemonic@,
            symbol_table@,
            include_code(statement@, file_views(files@), path_views(active@)),
        ),
    decreases files@.len(), 1nat, 0nat,
{
    reveal(dispatched);
    // INSTRUCTIONS
    if str_eq(mnemonic, "CLS") {
        cls(statement)
    } else if str_eq(mnemonic, "RET") {
        ret(statement)
    } else if str_eq(mnemonic, "SYS") {
        sys(statement, symbol_table)
    } else if str_eq(mnemonic, "JP") {
        jp(statement, symbol_table)
    } else if str_eq(mnemonic, "CALL") {
        call(statement, symbol_table)
    } else if str_eq(mnemonic, "SE") {
        se(statement)
    } else if str_eq(mnemonic, "SNE") {
        sne(statement)
    } else if str_eq(mnemonic, "LD") {
        ld(statement, symbol_table)
    } else if str_eq(mnemonic, "ADD") {
        crate::assembler::instructions::add(statement)
    } else if str_eq(mnemonic, "OR") {
        or(statement)
    } else if str_eq(mnemonic, "AND") {
        and(statement)
    } else if str_eq(mnemonic, "XOR") {
        xor(statement)
    } else if str_eq(mnemonic, "SUB") {
        crate::assembler::instructions::sub(statement)
    } else if str_eq(mnemonic, "SHR") {
        shr(statement)
    } else if str_eq(mnemonic, "SUBN") {
        subn(statement)
    } else if str_eq(mnemonic, "SHL") {
        shl(statement)
    } else if str_eq(mnemonic, "RND") {
        rnd(statement)
    } else if str_eq(mnemonic, "DRW") {
        drw(statement)
    } else if str_eq(mnemonic, "SKP") {
        skp(statement)
    } else if str_eq(mnemonic, "SKNP") {
        sknp(statement)
    // ASSEMBLER DIRECTIVES
    } else if str_eq(mnemonic, ".BYTE") || str_eq(mnemonic, ".DB") {
        byte(statement)
    } else if str_eq(mnemonic, ".WORD") || str_eq(mnemonic, ".DW") {
        word(statement)
    } else if str_eq(mnemonic, ".TEXT") || str_eq(mnemonic, ".ASCII") {
        text(statement)
    } else if str_eq(mnemonic, ".FILL") {
        fill(statement)
    } else if str_eq(mnemonic, ".SPACE") {
        space(statement)
    } else if str_eq(mnemonic, ".INCLUDE") {
        _include(statement, files, active)
    } else if str_eq(mnemonic, ".WARN") {
        warn(statement)
    } else if str_eq(mnemonic, ".ERROR") {
        _error(statement)
    } else {
        Err(
            Error::UnknownInstruction {
                instruction: statement.instruction().to_owned(),
                instruction_span: statement.instruction_span(),
                line_number: statement.line_number(),
                line: statement.line(),
            },
        )
    }
}

/// Generate the code of a statement
pub fn parse_statement<'f>(
    statement: &Statement,
    symbol_table: &SymbolTable,
    files: &Vec<&'f SourceFile>,
    active: &Vec<&'f str>,
) -> (code: Result<Vec<u8>, Error>)
    ensures
        emitted(code) == statement_code(
            statement@,
            symbol_table@,
            file_views(files@),
            path_views(active@),
        ),
    decreases files@.len(), 2nat, 0nat,
{
    let mnemonic = to_upper(statement.instruction());
    dispatch(statement, mnemonic.as_str(), symbol_table, files, active)
}

/// The first pass: the labels with their addresses, and the statements
pub fn first_pass<'a, 'f>(
    lines: &'a Vec<String>,
    files: &Vec<&'f SourceFile>,
    active: &Vec<&'f str>,
) -> (out: Result<(SymbolTable, Vec<Statement<'a>>), Error>)
    ensures
        match out {
            Ok((labels, statements)) => scanned(
                line_texts(lines@),
                lines@.len() as int,
                file_views(files@),
                path_views(active@),
            ) matches Ok(pass) && pass.labels == labels@ && pass.statements == statement_views(
                statements@,
            ),
            Err(error) => scanned(
                line_texts(lines@),
                lines@.len() as int,
                file_views(files@),
                path_views(active@),
            ) == Err::<PassView, ErrorView>(error@),
        },
    decreases files@.len(), 4nat, 0nat,
{
    let ghost texts = line_texts(lines@);
    let ghost known = file_views(files@);
    let ghost stack = path_views(active@);
    let mut labels = SymbolTable::new();
    let mut unresolved: Vec<Statement<'a>> = Vec::new();
    let mut address: OpcodeAddress = 0;
    let mut i: usize = 0;
    assert(statement_views(unresolved@) =~= Seq::<StatementView>::empty());
    while i < lines.len()
        invariant
            texts == line_texts(lines@),
            known == file_views(files@),
            stack == path_views(active@),
            i <= lines@.len(),
            scanned(texts, i as int, known, stack) == Ok::<PassView, ErrorView>(
                PassView {
                    labels: labels@,
                    statements: statement_views(unresolved@),
                    address,
                },
            ),
        decreases lines@.len() - i,
    {
        let line: &'a str = lines[i].as_str();
        assert(texts[i as int] == line@);
        let ghost before = statement_views(unresolved@);
        let ghost pass = PassView {
            labels: labels@,
            statements: statement_views(unresolved@),
            address,
        };
        assert(scanned(texts, i + 1, known, stack) == scanned_line(
            pass,
            line@,
            (i + 1) as usize,
            known,
            stack,
        ));
        let chars = chars_of(line);
        if defines_label(chars.as_slice()) {
            let (_, end) = strip_bounds(chars.as_slice(), Some(':'), false);
            labels.insert(string_of(&chars, 0, end), address);
        } else {
            match lex_statement(line, i + 1) {
                None => {
                    proof {
                        lemma_scanned_fails(texts, i + 1, lines@.len() as int, known, stack);
                    }
                    return Err(
                        Error::UnknownInstruction {
                            instruction: String::new(),
                            instruction_span: TokenSpan::new(0, 0),
                            line_number: i + 1,
                            line: line.to_owned(),
                        },
                    );
                },
                Some(statement) => {
                    let name = chars_of(statement.instruction());
                    if name.len() > 0 && name[0] == '.' {
                        // Here we need to know the output size of the directive to not mess
                        // up the offsets
                        match parse_statement(&statement, &labels, files, active) {
                            Err(error) => {
                                proof {
                                    lemma_scanned_fails(
                                        texts,
                                        i + 1,
                                        lines@.len() as int,
                                        known,
                                        stack,
                                    );
                                }
                                return Err(error);
                            },
                            Ok(code) => {
                                address = if code.len() > 0xFFFF {
                                    0xFFFF
                                } else {
                                    address.saturating_add(code.len() as u16)
                                };
                            },
                        }
                    } else {
                        address = address.saturating_add(BYTES_PER_INSTRUCTION);
                    }
                    unresolved.push(statement);
                    assert(statement_views(unresolved@) =~= before.push(statement@));
                },
            }
        }
        i += 1;
    }
    Ok((labels, unresolved))
}

/// The second pass: the code of the statements, one after the other
pub fn second_pass<'f>(
    symbol_table: &SymbolTable,
    unresolved: &Vec<Statement>,
    files: &Vec<&'f SourceFile>,
    active: &Vec<&'f str>,
) -> (code: Result<Vec<u8>, Error>)
    ensures
        emitted(code) == generated(
            statement_views(unresolved@),
            unresolved@.len() as int,
            symbol_table@,
            file_views(files@),
            path_views(active@),
        ),
    decreases files@.len(), 4nat, 0nat,
{
    let ghost statements = statement_views(unresolved@);
    let ghost known = file_views(files@);
    let ghost stack = path_views(active@);
    let mut bytecode: Vec<u8> = Vec::new();
    let mut n: usize = 0;
    while n < unresolved.len()
        invariant
            statements == statement_views(unresolved@),
            known == file_views(files@),
            stack == path_views(active@),
            n <= unresolved@.len(),
            generated(statements, n as int, symbol_table@, known, stack) == Ok::<
                Seq<u8>,
                ErrorView,
            >(bytecode@),
        decreases unresolved@.len() - n,
    {
        assert(statements[n as int] == unresolved@[n as int]@);
        match parse_statement(&unresolved[n], symbol_table, files, active) {
            Err(error) => {
                proof {
                    lemma_generated_fails(
                        statements,
                        n + 1,
                        unresolved@.len() as int,
                        symbol_table@,
                        known,
                        stack,
                    );
                }
                return Err(error);
            },
            Ok(mut bytes) => {
                bytecode.append(&mut bytes);
            },
        }
        n += 1;
    }
    Ok(bytecode)
}

/// Assemble a source, with the files that it may include and the paths
/// of the files that are being assembled
pub fn assemble_source<'f>(source: &str, files: &Vec<&'f SourceFile>, active: &Vec<&'f str>) -> (code:
    Result<Vec<u8>, Error>)
    ensures
        emitted(code) == assembled(source@, file_views(files@), path_views(active@)),
    decreases files@.len(), 5nat, 0nat,
{
    let preprocessed = match preprocess(source) {
        Ok(lines) => lines,
        Err(error) => {
            return Err(error);
        },
    };
    assert(line_texts(preprocessed@) =~= Seq::new(
        preprocessed@.len(),
        |i: int| preprocessed@[i]@,
    ));
    let (symbol_table, unresolved) = match first_pass(&preprocessed, files, active) {
        Ok(found) => found,
        Err(error) => {
            return Err(error);
        },
    };
    second_pass(&symbol_table, &unresolved, files, active)
}

/// References to some files
fn references<'f>(files: &'f Vec<SourceFile>) -> (refs: Vec<&'f SourceFile>)
    ensures
        file_views(refs@) == source_views(files@),
{
    let mut refs: Vec<&'f SourceFile> = Vec::new();
    let mut i: usize = 0;
    while i < files.len()
        invariant
            i <= files@.len(),
            refs@.len() == i,
            forall|k: int| 0 <= k < i ==> (#[trigger] refs@[k])@ == files@[k]@,
        decreases files@.len() - i,
    {
        refs.push(&files[i]);
        i += 1;
    }
    assert(file_views(refs@) =~= source_views(files@));
    refs
}

/// The index of the first file with the given path, or the number of files
pub fn find_file(files: &Vec<&SourceFile>, path: &str) -> (at: usize)
    ensures
        at == position(file_views(files@), path@, 0),
        at <= files@.len(),
{
    let mut at: usize = 0;
    while at < files.len()
        invariant
            at <= files@.len(),
            position(file_views(files@), path@, 0) == position(file_views(files@), path@, at as int),
        decreases files@.len() - at,
    {
        assert(file_views(files@)[at as int].path == files@[at as int].path@);
        if str_eq(files[at].path.as_str(), path) {
            return at;
        }
        at += 1;
    }
    at
}

/// The files without the file at index `at`
pub fn without<'f>(files: &Vec<&'f SourceFile>, at: usize) -> (rest: Vec<&'f SourceFile>)
    requires
        at < files@.len(),
    ensures
        file_views(rest@) == file_views(files@).remove(at as int),
        rest@.len() == files@.len() - 1,
{
    let mut rest: Vec<&'f SourceFile> = Vec::new();
    let mut i: usize = 0;
    while i < files.len()
        invariant
            i <= files@.len(),
            at < files@.len(),
            rest@.len() == if i <= at {
                i as int
            } else {
                i - 1
            },
            forall|k: int| 0 <= k < rest@.len() ==> (#[trigger] rest@[k])@ == if k < at {
                files@[k]@
            } else {
                files@[k + 1]@
            },
        decreases files@.len() - i,
    {
        if i != at {
            rest.push(files[i]);
        }
        i += 1;
    }
    assert(file_views(rest@) =~= file_views(files@).remove(at as int));
    rest
}

/// Assemble source code string into a vector of bytes. No file stands
/// by, so every `.INCLUDE` fails.
pub fn assemble(source: &str) -> (code: Result<Vec<u8>, Error>)
    ensures
        emitted(code) == assembled(source@, seq![], seq![]),
{
    let files: Vec<&SourceFile> = Vec::new();
    let active: Vec<&str> = Vec::new();
    assert(file_views(files@) =~= Seq::<FileView>::empty());
    assert(path_views(active@) =~= Seq::<Seq<char>>::empty());
    assemble_source(source, &files, &active)
}

/// Assemble source code string into a vector of bytes, with the files
/// that it may include
pub fn assemble_with(source: &str, files: &Vec<SourceFile>) -> (code: Result<Vec<u8>, Error>)
    ensures
        emitted(code) == assembled(source@, source_views(files@), seq![]),
{
    let refs = references(files);
    let active: Vec<&str> = Vec::new();
    assert(path_views(active@) =~= Seq::<Seq<char>>::empty());
    assemble_source(source, &refs, &active)
}

/// Assemble a file into a vector of bytes. The file is one of `files`,
/// which also are the files that it may include; where no file has the
/// path, that is a read error.
pub fn assemble_from_file(path: &str, files: &Vec<SourceFile>) -> (code: Result<Vec<u8>, Error>)
    ensures
        emitted(code) == assembled_file(path@, source_views(files@)),
{
    let refs = references(files);
    let at: usize = find_file(&refs, path);
    if at >= refs.len() {
        return Err(Error::ReadError { path: path.to_owned() });
    }
    proof {
        lemma_position(file_views(refs@), path@, 0);
    }
    let file: &SourceFile = refs[at];
    let rest = without(&refs, at);
    let mut active: Vec<&str> = Vec::new();
    active.push(file.path.as_str());
    assert(file@ == file_views(refs@)[at as int]);
    assert(path_views(active@) =~= seq![path@]);
    assemble_source(file.text.as_str(), &rest, &active)
}


/// A warning that a `.WARN` directive asks for
#[derive(Debug)]
pub struct Warning {
    pub message: String,
    pub line_number: usize,
}

/// What a [`Warning`] holds
pub struct WarningView {
    pub message: Seq<char>,
    pub line_number: usize,
}

impl View for Warning {
    type V = WarningView;

    open spec fn view(&self) -> WarningView {
        WarningView { message: self.message@, line_number: self.line_number }
    }
}

/// The views of some warnings
pub open spec fn warning_views(warnings: Seq<Warning>) -> Seq<WarningView> {
    Seq::new(warnings.len(), |i: int| warnings[i]@)
}

/// The warning of a line, numbered `line_number`, if it asks for one: a
/// line that is no label and whose statement is a `.WARN` directive with
/// the message for its only argument, or with none
pub open spec fn warning_of(line: Seq<char>, line_number: usize) -> Option<WarningView> {
    match lexed(line, line_number) {
        Some(s) if !is_label(line) && uppercase(s.instruction) == ".WARN"@ && s.arguments.len()
            <= 1 => Some(
            WarningView { message: crate::assembler::directives::message_of(s), line_number },
        ),
        _ => None,
    }
}

/// The warnings of the first `n` lines, in order
pub open spec fn warnings_of(lines: Seq<Seq<char>>, n: int) -> Seq<WarningView>
    decreases n,
{
    if n <= 0 {
        seq![]
    } else {
        match warning_of(lines[n - 1], n as usize) {
            Some(warning) => warnings_of(lines, n - 1).push(warning),
            None => warnings_of(lines, n - 1),
        }
    }
}

/// The warnings that a source asks for, with the numbers of their lines
/// in the preprocessed text. A source that cannot be preprocessed asks
/// for none. The warnings of included files are not among them.
pub fn warnings(source: &str) -> (found: Vec<Warning>)
    ensures
        warning_views(found@) == match preprocessed(source@) {
            Ok(lines) => warnings_of(lines, lines.len() as int),
            Err(_) => seq![],
        },
{
    let mut found: Vec<Warning> = Vec::new();
    assert(warning_views(found@) =~= Seq::<WarningView>::empty());
    let lines = match preprocess(source) {
        Ok(lines) => lines,
        Err(_) => {
            return found;
        },
    };
    let ghost texts = line_texts(lines@);
    assert(texts =~= Seq::new(lines@.len(), |i: int| lines@[i]@));
    let mut i: usize = 0;
    while i < lines.len()
        invariant
            texts == line_texts(lines@),
            i <= lines@.len(),
            warning_views(found@) == warnings_of(texts, i as int),
        decreases lines@.len() - i,
    {
        let line: &str = lines[i].as_str();
        assert(texts[i as int] == line@);
        let ghost before = warning_views(found@);
        let chars = chars_of(line);
        let label: bool = defines_label(chars.as_slice());
        match lex_statement(line, i + 1) {
            Some(statement) => {
                let mnemonic = to_upper(statement.instruction());
                if !label && str_eq(mnemonic.as_str(), ".WARN") && statement.n_arguments() <= 1 {
                    let warning = Warning {
                        message: crate::assembler::directives::message(&statement),
                        line_number: i + 1,
                    };
                    found.push(warning);
                    assert(warning_views(found@) =~= before.push(warning@));
                }
            },
            None => {},
        }
        i += 1;
    }
    found
}

} // verus!
