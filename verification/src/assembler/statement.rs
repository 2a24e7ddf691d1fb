//! [Statement] struct and its utilities

use crate::assembler::error::{outcome, Error, ErrorView};
use crate::text::{
    chars_of, max_for_bits, max_value, parse_radix, parse_unsigned, str_eq, string_of,
    strip_bounds, to_digit, digit_value, trim_matches,
};
use vstd::prelude::*;
use vstd::slice::slice_subrange;

verus! {

/// A span of text in the source code: the bytes from `start` up to, and
/// not including, `end` of a line. Used to neatly underline errors
#[derive(Debug, Clone, Copy, PartialEq, Eq, Structural)]
pub struct TokenSpan {
    pub start: usize,
    pub end: usize,
}

impl TokenSpan {
    /// Create a new token span
    pub fn new(start: usize, end: usize) -> (span: TokenSpan)
        ensures
            span == (TokenSpan { start, end }),
    {
        TokenSpan { start, end }
    }

    /// Get the start index of the token span
    pub fn start(&self) -> (start: usize)
        ensures
            start == self.start,
    {
        self.start
    }

    /// Get the end index of the token span
    pub fn end(&self) -> (end: usize)
        ensures
            end == self.end,
    {
        self.end
    }
}


/// The address of an instruction in the bytecode
pub type OpcodeAddress = u16;

/// A symbol table is a mapping of labels to their addresses in the
/// bytecode. A label that is defined again takes its new address.
pub struct SymbolTable {
    entries: Vec<(String, OpcodeAddress)>,
}

/// The mapping that a list of definitions makes: of two definitions of a
/// label the later one counts
pub open spec fn defined(entries: Seq<(String, OpcodeAddress)>) -> Map<Seq<char>, OpcodeAddress>
    decreases entries.len(),
{
    if entries.len() == 0 {
        Map::empty()
    } else {
        defined(entries.drop_last()).insert(entries.last().0@, entries.last().1)
    }
}

/// A label is looked up from the last definition backwards
proof fn lemma_defined(entries: Seq<(String, OpcodeAddress)>, label: Seq<char>, from: int)
    requires
        0 <= from <= entries.len(),
        forall|j: int| from <= j < entries.len() ==> entries[j].0@ != label,
    ensures
        from == 0 ==> !defined(entries).contains_key(label),
        from > 0 && entries[from - 1].0@ == label ==> defined(entries).contains_key(label)
            && defined(entries)[label] == entries[from - 1].1,
    decreases entries.len(),
{
    if entries.len() > from {
        lemma_defined(entries.drop_last(), label, from);
    }
}

impl View for SymbolTable {
    type V = Map<Seq<char>, OpcodeAddress>;

    closed spec fn view(&self) -> Map<Seq<char>, OpcodeAddress> {
        defined(self.entries@)
    }
}

impl SymbolTable {
    /// A table without labels
    pub fn new() -> (table: SymbolTable)
        ensures
            table@ == Map::<Seq<char>, OpcodeAddress>::empty(),
    {
        SymbolTable { entries: Vec::new() }
    }

    /// Define a label, or define it again
    pub fn insert(&mut self, label: String, address: OpcodeAddress)
        ensures
            final(self)@ == old(self)@.insert(label@, address),
    {
        self.entries.push((label, address));
        assert(self.entries@.drop_last() =~= old(self).entries@);
    }

    /// The address of a label, if it is defined
    pub fn get(&self, label: &str) -> (address: Option<OpcodeAddress>)
        ensures
            address == if self@.contains_key(label@) {
                Some(self@[label@])
            } else {
                None
            },
    {
        let mut i: usize = self.entries.len();
        while i > 0
            invariant
                i <= self.entries@.len(),
                forall|j: int| i <= j < self.entries@.len() ==> self.entries@[j].0@ != label@,
            decreases i,
        {
            if str_eq(self.entries[i - 1].0.as_str(), label) {
                proof {
                    lemma_defined(self.entries@, label@, i as int);
                }
                return Some(self.entries[i - 1].1);
            }
            i -= 1;
        }
        proof {
            lemma_defined(self.entries@, label@, 0);
        }
        None
    }
}

/// An instruction or directive parsed from the source code,
/// lexed into separate arguments
#[derive(Debug)]
pub struct Statement<'a> {
    instruction: &'a str,
    instruction_span: TokenSpan,
    arguments: Vec<&'a str>,
    argument_spans: Vec<TokenSpan>,
    line_number: usize,
    line: &'a str,
}

/// What a [`Statement`] holds, with its text as sequences of characters
pub struct StatementView {
    /// The mnemonic, as it was written
    pub instruction: Seq<char>,
    pub instruction_span: TokenSpan,
    /// The arguments, in order; a quoted string keeps its quotes
    pub arguments: Seq<Seq<char>>,
    /// The span of each argument
    pub argument_spans: Seq<TokenSpan>,
    /// The number of the line, counted from 1
    pub line_number: usize,
    /// The line that the statement was lexed from
    pub line: Seq<char>,
}

/// The largest of the numbers, or 0 where there is none
pub open spec fn largest(numbers: Seq<usize>) -> usize
    decreases numbers.len(),
{
    if numbers.len() == 0 {
        0
    } else if numbers.last() >= largest(numbers.drop_last()) {
        numbers.last()
    } else {
        largest(numbers.drop_last())
    }
}

/// The number that a lexeme writes: hexadecimal after `0x`, binary after
/// `0b`, decimal otherwise
pub open spec fn number_value(lexeme: Seq<char>) -> Option<u16> {
    if lexeme.len() >= 2 && lexeme[0] == '0' && lexeme[1] == 'x' {
        parse_unsigned(lexeme.skip(2), 16)
    } else if lexeme.len() >= 2 && lexeme[0] == '0' && lexeme[1] == 'b' {
        parse_unsigned(lexeme.skip(2), 2)
    } else {
        parse_unsigned(lexeme, 10)
    }
}

/// The register that a lexeme names: `V` and one hexadecimal digit
pub open spec fn register_value(lexeme: Seq<char>) -> Option<u16> {
    if lexeme.len() == 2 && lexeme[0] == 'V' {
        match digit_value(lexeme[1], 16) {
            Some(digit) => Some(digit as u16),
            None => None,
        }
    } else {
        None
    }
}

impl StatementView {
    /// The arguments and their spans go together
    pub open spec fn wf(self) -> bool {
        self.arguments.len() == self.argument_spans.len()
    }

    /// The argument at `index`, if there is one
    pub open spec fn argument(self, index: usize) -> Result<Seq<char>, ErrorView> {
        if index < self.arguments.len() {
            Ok(self.arguments[index as int])
        } else {
            Err(
                ErrorView::InvalidArgumentIndex {
                    requested_index: index,
                    n_arguments: self.arguments.len() as usize,
                },
            )
        }
    }

    /// The error for the argument at `index`, which points at it
    pub open spec fn invalid_argument(self, index: usize) -> ErrorView {
        ErrorView::InvalidArgument {
            argument: self.arguments[index as int],
            argument_span: self.argument_spans[index as int],
            line_number: self.line_number,
            line: self.line,
        }
    }

    /// The error for a wrong number of arguments. It points at the
    /// arguments beyond the largest number that was expected.
    pub open spec fn invalid_argument_count(
        self,
        n_arguments: usize,
        expected: Seq<usize>,
    ) -> ErrorView {
        ErrorView::InvalidArgumentCount {
            instruction: self.instruction,
            n_arguments,
            expected,
            extra_argument_spans: if largest(expected) <= self.argument_spans.len() {
                self.argument_spans.skip(largest(expected) as int)
            } else {
                seq![]
            },
            line_number: self.line_number,
            line: self.line,
        }
    }

    /// The argument as a number of at most `max_n_bits` bits. A number that
    /// needs more is an overflow; what is no number is an invalid argument.
    pub open spec fn parse_number(self, index: usize, max_n_bits: usize) -> Result<u16, ErrorView> {
        match self.argument(index) {
            Err(error) => Err(error),
            Ok(lexeme) => match number_value(lexeme) {
                Some(number) => if number > max_for_bits(max_n_bits as nat) {
                    Err(self.argument_overflow(index, number, max_n_bits))
                } else {
                    Ok(number)
                },
                None => Err(self.invalid_argument(index)),
            },
        }
    }

    /// The argument as a register, `0` to `15`
    pub open spec fn parse_register(self, index: usize) -> Result<u16, ErrorView> {
        match self.argument(index) {
            Err(error) => Err(error),
            Ok(lexeme) => match register_value(lexeme) {
                Some(register) => Ok(register),
                None => Err(self.invalid_argument(index)),
            },
        }
    }

    /// Nothing, where the statement has `n` arguments, and an error where it has not
    pub open spec fn assert_n_arguments(self, n: usize) -> Result<(), ErrorView> {
        if self.arguments.len() != n {
            Err(self.invalid_argument_count(self.arguments.len() as usize, seq![n]))
        } else {
            Ok(())
        }
    }

    /// Exactly two arguments, both registers
    pub open spec fn parse_only_two_registers(self) -> Result<(u16, u16), ErrorView> {
        match self.assert_n_arguments(2) {
            Err(error) => Err(error),
            Ok(_) => match self.parse_register(0) {
                Err(error) => Err(error),
                Ok(x) => match self.parse_register(1) {
                    Err(error) => Err(error),
                    Ok(y) => Ok((x, y)),
                },
            },
        }
    }

    /// The argument as a label: its address in memory, which is its
    /// address in the bytecode moved up by `0x200`. An address that would
    /// pass the last one of sixteen bits stays there.
    pub open spec fn parse_label(
        self,
        index: usize,
        symbol_table: Map<Seq<char>, OpcodeAddress>,
    ) -> Result<OpcodeAddress, ErrorView> {
        match self.argument(index) {
            Err(error) => Err(error),
            Ok(lexeme) => if symbol_table.contains_key(lexeme) {
                Ok(
                    if symbol_table[lexeme] + 0x200 > 0xFFFF {
                        0xFFFFu16
                    } else {
                        (symbol_table[lexeme] + 0x200) as u16
                    },
                )
            } else {
                Err(self.invalid_argument(index))
            },
        }
    }

    /// The error for a value that needs more than `max_n_bits` bits, which
    /// points at the argument at `index`
    pub open spec fn argument_overflow(self, index: usize, value: u16, max_n_bits: usize) -> ErrorView {
        ErrorView::ArgumentOverflow {
            argument: value,
            argument_span: self.argument_spans[index as int],
            expected_n_bits: max_n_bits,
            line_number: self.line_number,
            line: self.line,
        }
    }

    /// The argument as a number of at most 12 bits or, where it is no
    /// number, as a label. A number that needs more than 12 bits is an
    /// overflow, a label of the same spelling notwithstanding.
    pub open spec fn parse_addr_or_label(
        self,
        index: usize,
        symbol_table: Map<Seq<char>, OpcodeAddress>,
    ) -> Result<OpcodeAddress, ErrorView> {
        match self.parse_number(index, 12) {
            Ok(number) => Ok(number),
            Err(error) => if error is ArgumentOverflow {
                Err(error)
            } else {
                self.parse_label(index, symbol_table)
            },
        }
    }

    /// The argument as an address of 12 bits: a number, or a label whose
    /// address in memory fits. A label that lies beyond is an overflow, as
    /// a number is.
    pub open spec fn parse_address(
        self,
        index: usize,
        symbol_table: Map<Seq<char>, OpcodeAddress>,
    ) -> Result<OpcodeAddress, ErrorView> {
        match self.parse_addr_or_label(index, symbol_table) {
            Err(error) => Err(error),
            Ok(address) => if address > 0xFFF {
                Err(self.argument_overflow(index, address, 12))
            } else {
                Ok(address)
            },
        }
    }

    /// The argument as a string: the lexeme without the quotes at its ends
    pub open spec fn parse_string(self, index: usize) -> Result<Seq<char>, ErrorView> {
        match self.argument(index) {
            Err(error) => Err(error),
            Ok(lexeme) => Ok(trim_matches(lexeme, '"')),
        }
    }
}

impl<'a> View for Statement<'a> {
    type V = StatementView;

    closed spec fn view(&self) -> StatementView {
        StatementView {
            instruction: self.instruction@,
            instruction_span: self.instruction_span,
            arguments: Seq::new(self.arguments@.len(), |i: int| self.arguments@[i]@),
            argument_spans: self.argument_spans@,
            line_number: self.line_number,
            line: self.line@,
        }
    }
}

impl<'a> Clone for Statement<'a> {
    fn clone(&self) -> (copy: Self)
        ensures
            copy@ == self@,
    {
        proof {
            use_type_invariant(self);
        }
        let copy = Statement {
            instruction: self.instruction,
            instruction_span: self.instruction_span,
            arguments: self.arguments.clone(),
            argument_spans: self.argument_spans.clone(),
            line_number: self.line_number,
            line: self.line,
        };
        assert(copy@.arguments =~= self@.arguments);
        assert(copy@.argument_spans =~= self@.argument_spans);
        copy
    }
}

/// The number that a lexeme writes
fn number_of(lexeme: &str) -> (number: Option<u16>)
    ensures
        number == number_value(lexeme@),
{
    let chars = chars_of(lexeme);
    if chars.len() >= 2 && chars[0] == '0' && (chars[1] == 'x' || chars[1] == 'b') {
        let radix: u8 = if chars[1] == 'x' {
            16
        } else {
            2
        };
        let digits = slice_subrange(chars.as_slice(), 2, chars.len());
        assert(digits@ =~= lexeme@.skip(2));
        parse_radix(digits, radix)
    } else {
        parse_radix(chars.as_slice(), 10)
    }
}

/// The register that a lexeme names
fn register_of(lexeme: &str) -> (register: Option<u16>)
    ensures
        register == register_value(lexeme@),
{
    let chars = chars_of(lexeme);
    if chars.len() == 2 && chars[0] == 'V' {
        match to_digit(chars[1], 16) {
            Some(digit) => Some(digit as u16),
            None => None,
        }
    } else {
        None
    }
}

/// The largest of the numbers, or 0 where there is none
fn largest_of(numbers: &[usize]) -> (max: usize)
    ensures
        max == largest(numbers@),
{
    let mut max: usize = 0;
    let mut i: usize = 0;
    while i < numbers.len()
        invariant
            i <= numbers@.len(),
            max == largest(numbers@.take(i as int)),
        decreases numbers@.len() - i,
    {
        assert(numbers@.take(i + 1).drop_last() =~= numbers@.take(i as int));
        if numbers[i] >= max {
            max = numbers[i];
        }
        i += 1;
    }
    assert(numbers@.take(i as int) =~= numbers@);
    max
}

impl<'a> Statement<'a> {
    #[verifier::type_invariant]
    spec fn well_formed(self) -> bool {
        self.arguments@.len() == self.argument_spans@.len()
    }

    /// Create a new statement from parsed data: as many spans as arguments
    pub fn new(
        instruction: &'a str,
        instruction_span: TokenSpan,
        arguments: Vec<&'a str>,
        argument_spans: Vec<TokenSpan>,
        line_number: usize,
        line: &'a str,
    ) -> (statement: Statement<'a>)
        requires
            arguments@.len() == argument_spans@.len(),
        ensures
            statement@ == (StatementView {
                instruction: instruction@,
                instruction_span,
                arguments: Seq::new(arguments@.len(), |i: int| arguments@[i]@),
                argument_spans: argument_spans@,
                line_number,
                line: line@,
            }),
            statement@.wf(),
    {
        Statement { instruction, instruction_span, arguments, argument_spans, line_number, line }
    }

    /// Get the instruction of the statement
    pub fn instruction(&self) -> (instruction: &str)
        ensures
            instruction@ == self@.instruction,
    {
        self.instruction
    }

    /// Get the span of the instruction
    pub fn instruction_span(&self) -> (span: TokenSpan)
        ensures
            span == self@.instruction_span,
    {
        self.instruction_span
    }

    /// Get the number of arguments of the statement
    pub fn n_arguments(&self) -> (n: usize)
        ensures
            n == self@.arguments.len(),
            self@.wf(),
    {
        proof {
            use_type_invariant(self);
        }
        self.arguments.len()
    }

    /// Get the line number of the statement
    pub fn line_number(&self) -> (line_number: usize)
        ensures
            line_number == self@.line_number,
    {
        self.line_number
    }

    /// Get this statement's source code line
    pub fn line(&self) -> (line: String)
        ensures
            line@ == self@.line,
    {
        self.line.to_owned()
    }

    /// Get the argument at the given index
    pub fn argument(&self, argument_index: usize) -> (argument: Result<&str, Error>)
        ensures
            match argument {
                Ok(lexeme) => self@.argument(argument_index) == Ok::<Seq<char>, ErrorView>(
                    lexeme@,
                ),
                Err(error) => self@.argument(argument_index) == Err::<Seq<char>, ErrorView>(
                    error@,
                ),
            },
    {
        if argument_index < self.arguments.len() {
            Ok(self.arguments[argument_index])
        } else {
            Err(
                Error::InvalidArgumentIndex {
                    requested_index: argument_index,
                    n_arguments: self.arguments.len(),
                },
            )
        }
    }

    /// Parse a number that is bounded by a maximum number of bits from the
    /// argument at the given index
    pub fn parse_number(&self, argument_index: usize, max_n_bits: usize) -> (number: Result<
        u16,
        Error,
    >)
        ensures
            outcome(number) == self@.parse_number(argument_index, max_n_bits),
    {
        proof {
            use_type_invariant(self);
        }
        let lexeme = self.argument(argument_index)?;
        match number_of(lexeme) {
            Some(number) => {
                if number > max_value(max_n_bits) {
                    Err(self.argument_overflow(argument_index, number, max_n_bits))
                } else {
                    Ok(number)
                }
            },
            None => Err(self.invalid_argument(argument_index)),
        }
    }

    /// Parse a register from the argument at the given index
    pub fn parse_register(&self, argument_index: usize) -> (register: Result<u16, Error>)
        ensures
            outcome(register) == self@.parse_register(argument_index),
    {
        let lexeme = self.argument(argument_index)?;
        match register_of(lexeme) {
            Some(register) => Ok(register),
            None => Err(self.invalid_argument(argument_index)),
        }
    }

    /// Parse only two registers from the arguments and nothing else
    pub fn parse_only_two_registers(&self) -> (registers: Result<(u16, u16), Error>)
        ensures
            outcome(registers) == self@.parse_only_two_registers(),
    {
        self.assert_n_arguments(2)?;
        let x = self.parse_register(0)?;
        let y = self.parse_register(1)?;
        Ok((x, y))
    }

    /// Parse a label from the argument at the given index, return its address
    pub fn parse_label(&self, argument_index: usize, symbol_table: &SymbolTable) -> (address:
        Result<OpcodeAddress, Error>)
        ensures
            outcome(address) == self@.parse_label(argument_index, symbol_table@),
    {
        let lexeme = self.argument(argument_index)?;
        match symbol_table.get(lexeme) {
            // offset for ROM
            Some(address) => Ok(address.saturating_add(0x200)),
            None => Err(self.invalid_argument(argument_index)),
        }
    }

    /// Parse an address or a label from the argument at the given index
    pub fn parse_addr_or_label(&self, argument_index: usize, symbol_table: &SymbolTable) -> (address:
        Result<OpcodeAddress, Error>)
        ensures
            outcome(address) == self@.parse_addr_or_label(argument_index, symbol_table@),
    {
        match self.parse_number(argument_index, 12) {
            Ok(number) => Ok(number),
            Err(error) => {
                if let Error::ArgumentOverflow { .. } = error {
                    return Err(error);
                }
                self.parse_label(argument_index, symbol_table)
            },
        }
    }

    /// Parse an address of 12 bits from the argument at the given index: a
    /// number, or a label whose address in memory fits
    pub fn parse_address(&self, argument_index: usize, symbol_table: &SymbolTable) -> (address:
        Result<OpcodeAddress, Error>)
        ensures
            outcome(address) == self@.parse_address(argument_index, symbol_table@),
    {
        let address = self.parse_addr_or_label(argument_index, symbol_table)?;
        if address > 0xFFF {
            return Err(self.argument_overflow(argument_index, address, 12));
        }
        Ok(address)
    }

    /// Generate an error for a value that needs more than the given number
    /// of bits, given the index of the argument that holds it
    pub fn argument_overflow(&self, argument_index: usize, value: u16, max_n_bits: usize) -> (error:
        Error)
        requires
            argument_index < self@.arguments.len(),
        ensures
            error@ == self@.argument_overflow(argument_index, value, max_n_bits),
    {
        proof {
            use_type_invariant(self);
        }
        Error::ArgumentOverflow {
            argument: value,
            argument_span: self.argument_spans[argument_index],
            expected_n_bits: max_n_bits,
            line_number: self.line_number,
            line: self.line(),
        }
    }

    /// Parse a string from the argument at the given index
    pub fn parse_string(&self, argument_index: usize) -> (string: Result<String, Error>)
        ensures
            match string {
                Ok(text) => self@.parse_string(argument_index) == Ok::<Seq<char>, ErrorView>(
                    text@,
                ),
                Err(error) => self@.parse_string(argument_index) == Err::<Seq<char>, ErrorView>(
                    error@,
                ),
            },
    {
        let lexeme = self.argument(argument_index)?;
        let chars = chars_of(lexeme);
        let (start, end) = strip_bounds(chars.as_slice(), Some('"'), true);
        Ok(string_of(&chars, start, end))
    }

    /// Assert that the statement has the given number of arguments
    pub fn assert_n_arguments(&self, n: usize) -> (checked: Result<(), Error>)
        ensures
            outcome(checked) == self@.assert_n_arguments(n),
    {
        let n_arguments = self.arguments.len();
        if n_arguments != n {
            let expected: [usize; 1] = [n];
            assert(expected@ =~= seq![n]);
            return Err(self.invalid_argument_count(n_arguments, expected.as_slice()));
        }
        Ok(())
    }

    /// Generate an error for an invalid argument, given an argument index
    pub fn invalid_argument(&self, argument_index: usize) -> (error: Error)
        requires
            argument_index < self@.arguments.len(),
        ensures
            error@ == self@.invalid_argument(argument_index),
    {
        proof {
            use_type_invariant(self);
        }
        Error::InvalidArgument {
            argument: self.arguments[argument_index].to_owned(),
            argument_span: self.argument_spans[argument_index],
            line_number: self.line_number,
            line: self.line(),
        }
    }

    /// Generate an error for an invalid number of arguments, given the number
    /// of arguments and the expected number of arguments
    pub fn invalid_argument_count(&self, n_arguments: usize, expected: &[usize]) -> (error: Error)
        ensures
            error@ == self@.invalid_argument_count(n_arguments, expected@),
    {
        let max_expected = largest_of(expected);
        let mut extra_argument_spans: Vec<TokenSpan> = Vec::new();
        let mut i: usize = max_expected;
        while i < self.argument_spans.len()
            invariant
                max_expected <= i,
                i <= self.argument_spans@.len() || i == max_expected,
                max_expected <= self.argument_spans@.len() ==> extra_argument_spans@
                    == self.argument_spans@.subrange(max_expected as int, i as int),
                max_expected > self.argument_spans@.len() ==> extra_argument_spans@ == Seq::<
                    TokenSpan,
                >::empty(),
            decreases self.argument_spans@.len() - i,
        {
            extra_argument_spans.push(self.argument_spans[i]);
            assert(self.argument_spans@.subrange(max_expected as int, i + 1)
                =~= self.argument_spans@.subrange(max_expected as int, i as int).push(
                self.argument_spans@[i as int],
            ));
            i += 1;
        }
        proof {
            if max_expected <= self.argument_spans@.len() {
                assert(extra_argument_spans@ =~= self.argument_spans@.skip(max_expected as int));
            }
        }
        let mut expected_numbers: Vec<usize> = Vec::new();
        let mut k: usize = 0;
        while k < expected.len()
            invariant
                k <= expected@.len(),
                expected_numbers@ == expected@.take(k as int),
            decreases expected@.len() - k,
        {
            expected_numbers.push(expected[k]);
            assert(expected@.take(k + 1) =~= expected@.take(k as int).push(expected@[k as int]));
            k += 1;
        }
        assert(expected@.take(k as int) =~= expected@);
        Error::InvalidArgumentCount {
            instruction: self.instruction.to_owned(),
            n_arguments,
            expected: expected_numbers,
            extra_argument_spans,
            line_number: self.line_number,
            line: self.line(),
        }
    }
}

} // verus!
