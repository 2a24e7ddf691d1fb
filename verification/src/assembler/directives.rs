//! Code generation functions for directives

use crate::assembler::codegen_utils::{halves, lemma_operand_widths, split_u16};
use crate::assembler::error::{emitted, Error, ErrorView};
use crate::assembler::statement::{Statement, StatementView};
use crate::assembler::{
    assemble_source, cyclic_include, file_views, find_file, include_code, lemma_position,
    path_views, without,
    SourceFile,
};
use crate::text::str_eq;
use vstd::prelude::*;
use vstd::string::{StrSliceExecFns, StringExecFns};

verus! {

/// `.byte`, `.db`: one number of 8 bits, one byte
pub open spec fn byte_code(s: StatementView) -> Result<Seq<u8>, ErrorView> {
    match s.assert_n_arguments(1) {
        Err(error) => Err(error),
        Ok(_) => match s.parse_number(0, 8) {
            Err(error) => Err(error),
            Ok(number) => Ok(seq![number as u8]),
        },
    }
}

/// `.word`, `.dw`: one number of 16 bits, two bytes, high byte first
pub open spec fn word_code(s: StatementView) -> Result<Seq<u8>, ErrorView> {
    match s.assert_n_arguments(1) {
        Err(error) => Err(error),
        Ok(_) => match s.parse_number(0, 16) {
            Err(error) => Err(error),
            Ok(number) => Ok(halves(number)),
        },
    }
}

/// `.text`, `.ascii`: a string, its bytes in UTF-8
pub open spec fn text_code(s: StatementView) -> Result<Seq<u8>, ErrorView> {
    match s.assert_n_arguments(1) {
        Err(error) => Err(error),
        Ok(_) => match s.parse_string(0) {
            Err(error) => Err(error),
            Ok(string) => Ok(vstd::utf8::encode_utf8(string)),
        },
    }
}

/// `.fill`: a number `n` of 16 bits and a byte, `n` copies of the byte
pub open spec fn fill_code(s: StatementView) -> Result<Seq<u8>, ErrorView> {
    match s.assert_n_arguments(2) {
        Err(error) => Err(error),
        Ok(_) => match s.parse_number(0, 16) {
            Err(error) => Err(error),
            Ok(n) => match s.parse_number(1, 8) {
                Err(error) => Err(error),
                Ok(byte) => Ok(Seq::new(n as nat, |i: int| byte as u8)),
            },
        },
    }
}

/// `.space`: a number `n` of 16 bits, `n` zero bytes
pub open spec fn space_code(s: StatementView) -> Result<Seq<u8>, ErrorView> {
    match s.assert_n_arguments(1) {
        Err(error) => Err(error),
        Ok(_) => match s.parse_number(0, 16) {
            Err(error) => Err(error),
            Ok(n) => Ok(Seq::new(n as nat, |i: int| 0u8)),
        },
    }
}

/// What `.warn` and `.error` ask of their arguments: the message or nothing
pub open spec fn at_most_one_argument(s: StatementView) -> Result<(), ErrorView> {
    if s.arguments.len() > 1 {
        Err(s.invalid_argument_count(s.arguments.len() as usize, seq![0, 1]))
    } else {
        Ok(())
    }
}

/// The message of `.warn` and `.error`: the first argument as a string,
/// or a fixed text where there is none
pub open spec fn message_of(s: StatementView) -> Seq<char> {
    match s.parse_string(0) {
        Ok(message) => message,
        Err(_) => "<no message>"@,
    }
}

/// `.warn`: no bytes
pub open spec fn warn_code(s: StatementView) -> Result<Seq<u8>, ErrorView> {
    match at_most_one_argument(s) {
        Err(error) => Err(error),
        Ok(_) => Ok(seq![]),
    }
}

/// `.error`: the assembly fails with the message
pub open spec fn error_code(s: StatementView) -> Result<Seq<u8>, ErrorView> {
    match at_most_one_argument(s) {
        Err(error) => Err(error),
        Ok(_) => Err(
            ErrorView::UserError {
                message: message_of(s),
                line_number: s.line_number,
                line: s.line,
            },
        ),
    }
}

/// `count` copies of `byte`
fn repeated(byte: u8, count: u16) -> (bytes: Vec<u8>)
    ensures
        bytes@ == Seq::new(count as nat, |i: int| byte),
{
    let mut bytes: Vec<u8> = Vec::new();
    let mut i: u16 = 0;
    while i < count
        invariant
            i <= count,
            bytes@.len() == i,
            forall|j: int| 0 <= j < i ==> bytes@[j] == byte,
        decreases count - i,
    {
        bytes.push(byte);
        i += 1;
    }
    assert(bytes@ =~= Seq::new(count as nat, |i: int| byte));
    bytes
}

/// Generate the code of `.byte`: one byte
pub fn byte(statement: &Statement) -> (code: Result<Vec<u8>, Error>)
    ensures
        emitted(code) == byte_code(statement@),
{
    proof {
        lemma_operand_widths();
    }
    statement.assert_n_arguments(1)?;
    let number = statement.parse_number(0, 8)?;
    let code: Vec<u8> = vec![number as u8];
    assert(code@ =~= seq![number as u8]);
    Ok(code)
}

/// Generate the code of `.word`: two bytes, high byte first
pub fn word(statement: &Statement) -> (code: Result<Vec<u8>, Error>)
    ensures
        emitted(code) == word_code(statement@),
{
    statement.assert_n_arguments(1)?;
    Ok(split_u16(statement.parse_number(0, 16)?))
}

/// Generate the code of `.text`: the bytes of a string
pub fn text(statement: &Statement) -> (code: Result<Vec<u8>, Error>)
    ensures
        emitted(code) == text_code(statement@),
{
    statement.assert_n_arguments(1)?;
    let string = statement.parse_string(0)?;
    Ok(string.as_str().as_bytes_vec())
}

/// Generate the code of `.fill`: copies of a byte
pub fn fill(statement: &Statement) -> (code: Result<Vec<u8>, Error>)
    ensures
        emitted(code) == fill_code(statement@),
{
    proof {
        lemma_operand_widths();
    }
    statement.assert_n_arguments(2)?;
    let n = statement.parse_number(0, 16)?;
    let byte = statement.parse_number(1, 8)? as u8;
    Ok(repeated(byte, n))
}

/// Generate the code of `.space`: zero bytes
pub fn space(statement: &Statement) -> (code: Result<Vec<u8>, Error>)
    ensures
        emitted(code) == space_code(statement@),
{
    statement.assert_n_arguments(1)?;
    Ok(repeated(0x00, statement.parse_number(0, 16)?))
}

/// The message of a `.warn` or `.error` statement
pub fn message(statement: &Statement) -> (message: String)
    ensures
        message@ == message_of(statement@),
{
    match statement.parse_string(0) {
        Ok(message) => message,
        Err(_) => String::from_str("<no message>"),
    }
}

/// Check that a `.warn` or `.error` statement has the message for its
/// only argument, or none
fn check_message(statement: &Statement) -> (checked: Result<(), Error>)
    ensures
        crate::assembler::error::outcome(checked) == at_most_one_argument(statement@),
{
    let n: usize = statement.n_arguments();
    if n > 1 {
        let expected: [usize; 2] = [0, 1];
        assert(expected@ =~= seq![0usize, 1usize]);
        return Err(statement.invalid_argument_count(n, expected.as_slice()));
    }
    Ok(())
}

/// `.warn` generates no code. The warning itself is for the caller to
/// report: [`message`] gives its text.
pub fn warn(statement: &Statement) -> (code: Result<Vec<u8>, Error>)
    ensures
        emitted(code) == warn_code(statement@),
{
    check_message(statement)?;
    Ok(Vec::new())
}

/// Fail with the message of `.error`
pub fn _error(statement: &Statement) -> (code: Result<Vec<u8>, Error>)
    ensures
        emitted(code) == error_code(statement@),
{
    check_message(statement)?;
    Err(
        Error::UserError {
            message: message(statement),
            line_number: statement.line_number(),
            line: statement.line(),
        },
    )
}


/// `.include`: the bytecode of the file that the argument names, one of
/// `files`. The paths of the files that are being assembled are `active`;
/// to include one of them again would never end, and is an error.
pub fn _include<'f>(statement: &Statement, files: &Vec<&'f SourceFile>, active: &Vec<&'f str>) -> (code:
    Result<Vec<u8>, Error>)
    ensures
        emitted(code) == include_code(statement@, file_views(files@), path_views(active@)),
    decreases files@.len(), 0nat, 0nat,
{
    statement.assert_n_arguments(1)?;
    let path = statement.parse_string(0)?;
    let mut cyclic: bool = false;
    let mut k: usize = 0;
    while k < active.len()
        invariant
            k <= active@.len(),
            cyclic == exists|j: int| 0 <= j < k && path_views(active@)[j] == path@,
        decreases active@.len() - k,
    {
        assert(path_views(active@)[k as int] == active@[k as int]@);
        if str_eq(active[k], path.as_str()) {
            cyclic = true;
        }
        k += 1;
    }
    assert(cyclic == path_views(active@).contains(path@));
    let at: usize = find_file(files, path.as_str());
    let inner: Result<Vec<u8>, Error> = if cyclic {
        Err(
            Error::UserError {
                message: String::from_str("cyclic include"),
                line_number: statement.line_number(),
                line: statement.line(),
            },
        )
    } else if at < files.len() {
        proof {
            lemma_position(file_views(files@), path@, 0);
        }
        let file: &'f SourceFile = files[at];
        let rest = without(files, at);
        let mut nested: Vec<&'f str> = Vec::new();
        let mut j: usize = 0;
        while j < active.len()
            invariant
                j <= active@.len(),
                nested@ == active@.take(j as int),
            decreases active@.len() - j,
        {
            nested.push(active[j]);
            assert(active@.take(j + 1) =~= active@.take(j as int).push(active@[j as int]));
            j += 1;
        }
        nested.push(file.path.as_str());
        assert(file@ == file_views(files@)[at as int]);
        assert(path_views(nested@) =~= path_views(active@).push(path@));
        assemble_source(file.text.as_str(), &rest, &nested)
    } else {
        Err(Error::ReadError { path: path.clone() })
    };
    proof {
        let expected = if path_views(active@).contains(path@) {
            Err(cyclic_include(statement@))
        } else if 0 <= at < files@.len() {
            crate::assembler::assembled(
                file_views(files@)[at as int].text,
                file_views(files@).remove(at as int),
                path_views(active@).push(path@),
            )
        } else {
            Err(ErrorView::ReadError { path: path@ })
        };
        assert(emitted(inner) == expected);
    }
    match inner {
        Ok(code) => Ok(code),
        Err(error) => Err(
            Error::IncludeError {
                path,
                error: Box::new(error),
                line_number: statement.line_number(),
                line: statement.line(),
            },
        ),
    }
}

} // verus!
