//! The errors of the assembler and the text that reports them

use crate::assembler::statement::TokenSpan;
use crate::text::{decimal, max_for_bits, max_value, push_decimal, string_of, utf8_len};
use vstd::prelude::*;
use vstd::string::StringExecFns;

verus! {

/// An error that can occur during the assembly process
#[derive(Debug)]
#[allow(inconsistent_fields)]
pub enum Error {
    /// An unknown instruction was encountered
    UnknownInstruction {
        instruction: String,
        instruction_span: TokenSpan,
        line_number: usize,
        line: String,
    },
    /// An invalid argument was encountered
    InvalidArgument { argument: String, argument_span: TokenSpan, line_number: usize, line: String },
    /// An invalid number of arguments was passed
    InvalidArgumentCount {
        instruction: String,
        n_arguments: usize,
        expected: Vec<usize>,
        extra_argument_spans: Vec<TokenSpan>,
        line_number: usize,
        line: String,
    },
    /// An error generated with `.ERROR` directive
    UserError { message: String, line_number: usize, line: String },
    /// A file could not be read
    ReadError { path: String },
    /// An error in a file included with `.INCLUDE` directive
    IncludeError { path: String, error: Box<Error>, line_number: usize, line: String },
    /// An argument overflowed the allowed number of bits (e.g. a byte was
    /// passed instead of a nibble)
    ArgumentOverflow {
        argument: u16,
        argument_span: TokenSpan,
        expected_n_bits: usize,
        line_number: usize,
        line: String,
    },
    /// A statement was asked for an argument that it does not have
    InvalidArgumentIndex { requested_index: usize, n_arguments: usize },
}

/// What an [`Error`] says, with its text as sequences of characters
#[allow(inconsistent_fields)]
pub enum ErrorView {
    UnknownInstruction {
        instruction: Seq<char>,
        instruction_span: TokenSpan,
        line_number: usize,
        line: Seq<char>,
    },
    InvalidArgument {
        argument: Seq<char>,
        argument_span: TokenSpan,
        line_number: usize,
        line: Seq<char>,
    },
    InvalidArgumentCount {
        instruction: Seq<char>,
        n_arguments: usize,
        expected: Seq<usize>,
        extra_argument_spans: Seq<TokenSpan>,
        line_number: usize,
        line: Seq<char>,
    },
    UserError { message: Seq<char>, line_number: usize, line: Seq<char> },
    ReadError { path: Seq<char> },
    IncludeError { path: Seq<char>, error: Box<ErrorView>, line_number: usize, line: Seq<char> },
    ArgumentOverflow {
        argument: u16,
        argument_span: TokenSpan,
        expected_n_bits: usize,
        line_number: usize,
        line: Seq<char>,
    },
    InvalidArgumentIndex { requested_index: usize, n_arguments: usize },
}

impl Error {
    /// What the error says
    pub open spec fn content(&self) -> ErrorView
        decreases self,
    {
        match self {
            Error::UnknownInstruction { instruction, instruction_span, line_number, line } => {
                ErrorView::UnknownInstruction {
                    instruction: instruction@,
                    instruction_span: *instruction_span,
                    line_number: *line_number,
                    line: line@,
                }
            },
            Error::InvalidArgument { argument, argument_span, line_number, line } => {
                ErrorView::InvalidArgument {
                    argument: argument@,
                    argument_span: *argument_span,
                    line_number: *line_number,
                    line: line@,
                }
            },
            Error::InvalidArgumentCount {
                instruction,
                n_arguments,
                expected,
                extra_argument_spans,
                line_number,
                line,
            } => ErrorView::InvalidArgumentCount {
                instruction: instruction@,
                n_arguments: *n_arguments,
                expected: expected@,
                extra_argument_spans: extra_argument_spans@,
                line_number: *line_number,
                line: line@,
            },
            Error::UserError { message, line_number, line } => ErrorView::UserError {
                message: message@,
                line_number: *line_number,
                line: line@,
            },
            Error::ReadError { path } => ErrorView::ReadError { path: path@ },
            Error::IncludeError { path, error, line_number, line } => ErrorView::IncludeError {
                path: path@,
                error: Box::new(error.content()),
                line_number: *line_number,
                line: line@,
            },
            Error::ArgumentOverflow {
                argument,
                argument_span,
                expected_n_bits,
                line_number,
                line,
            } => ErrorView::ArgumentOverflow {
                argument: *argument,
                argument_span: *argument_span,
                expected_n_bits: *expected_n_bits,
                line_number: *line_number,
                line: line@,
            },
            Error::InvalidArgumentIndex { requested_index, n_arguments } => {
                ErrorView::InvalidArgumentIndex {
                    requested_index: *requested_index,
                    n_arguments: *n_arguments,
                }
            },
        }
    }
}

impl View for Error {
    type V = ErrorView;

    open spec fn view(&self) -> ErrorView {
        self.content()
    }
}

/// A result with its error seen as an [`ErrorView`]
pub open spec fn outcome<T>(result: Result<T, Error>) -> Result<T, ErrorView> {
    match result {
        Ok(value) => Ok(value),
        Err(error) => Err(error@),
    }
}

/// Generated bytes, or the error, as sequences
pub open spec fn emitted(result: Result<Vec<u8>, Error>) -> Result<Seq<u8>, ErrorView> {
    match result {
        Ok(bytes) => Ok(bytes@),
        Err(error) => Err(error@),
    }
}


// Reports

/// The line that underlines the given spans of a line of `length` bytes:
/// a `^` under each byte of a span, a blank under every other
pub open spec fn underline(length: nat, spans: Seq<TokenSpan>) -> Seq<char> {
    Seq::new(
        length,
        |i: int|
            if exists|k: int| 0 <= k < spans.len() && (#[trigger] spans[k]).start <= i < spans[k].end {
                '^'
            } else {
                ' '
            },
    )
}

/// Numbers in decimal, separated by a comma and a blank
pub open spec fn listed(numbers: Seq<usize>) -> Seq<char>
    decreases numbers.len(),
{
    if numbers.len() == 0 {
        seq![]
    } else if numbers.len() == 1 {
        decimal(numbers[0] as nat)
    } else {
        listed(numbers.drop_last()) + ", "@ + decimal(numbers.last() as nat)
    }
}

impl ErrorView {
    /// The line of the source that the error is about, with its number
    pub open spec fn location(self) -> Option<(usize, Seq<char>)> {
        match self {
            ErrorView::UnknownInstruction { line_number, line, .. } => Some((line_number, line)),
            ErrorView::InvalidArgument { line_number, line, .. } => Some((line_number, line)),
            ErrorView::InvalidArgumentCount { line_number, line, .. } => Some((line_number, line)),
            ErrorView::UserError { line_number, line, .. } => Some((line_number, line)),
            ErrorView::ReadError { .. } => None,
            ErrorView::IncludeError { line_number, line, .. } => Some((line_number, line)),
            ErrorView::ArgumentOverflow { line_number, line, .. } => Some((line_number, line)),
            ErrorView::InvalidArgumentIndex { .. } => None,
        }
    }

    /// The spans of that line that the report underlines
    pub open spec fn underlined(self) -> Seq<TokenSpan> {
        match self {
            ErrorView::UnknownInstruction { instruction_span, .. } => seq![instruction_span],
            ErrorView::InvalidArgument { argument_span, .. } => seq![argument_span],
            ErrorView::InvalidArgumentCount { extra_argument_spans, .. } => extra_argument_spans,
            ErrorView::ArgumentOverflow { argument_span, .. } => seq![argument_span],
            _ => seq![],
        }
    }

    /// The first line of the report
    pub open spec fn message(self) -> Seq<char>
        decreases self, 0nat,
    {
        match self {
            ErrorView::UnknownInstruction { instruction, line_number, .. } => {
                "unknown instruction \""@ + instruction + "\" at line "@ + decimal(
                    line_number as nat,
                )
            },
            ErrorView::InvalidArgument { argument, line_number, .. } => {
                "invalid argument \""@ + argument + "\" at line "@ + decimal(line_number as nat)
            },
            ErrorView::InvalidArgumentCount {
                instruction,
                n_arguments,
                expected,
                line_number,
                ..
            } => {
                "invalid argument count for instruction \""@ + instruction + "\" at line "@
                    + decimal(line_number as nat) + ": found "@ + decimal(n_arguments as nat)
                    + ", expected ["@ + listed(expected) + "]"@
            },
            ErrorView::UserError { message, line_number, .. } => {
                "line "@ + decimal(line_number as nat) + ": "@ + message
            },
            ErrorView::ReadError { path } => "failed to read file "@ + path,
            ErrorView::IncludeError { path, error, line_number, .. } => {
                "in file "@ + path + " included at line "@ + decimal(line_number as nat) + ": "@
                    + error.report()
            },
            ErrorView::ArgumentOverflow { argument, expected_n_bits, line_number, .. } => {
                "argument overflow at line "@ + decimal(line_number as nat)
                    + ": maximum allowed value "@ + decimal(max_for_bits(expected_n_bits as nat))
                    + " (to fit in "@ + decimal(expected_n_bits as nat) + " bits), got "@
                    + decimal(argument as nat)
            },
            ErrorView::InvalidArgumentIndex { requested_index, n_arguments } => {
                "invalid argument index "@ + decimal(requested_index as nat)
                    + " requested; number of arguments: "@ + decimal(n_arguments as nat)
                    + ". If you see this, this is probably an internal bug in the assembler itself. Please, submit a GitHub issue."@
            },
        }
    }

    /// The report: the message on a line of its own; then, where the error
    /// is about a line of the source, its number, a tab and the line; then,
    /// where spans of it are to be pointed out, a second line that
    /// underlines them
    pub open spec fn report(self) -> Seq<char>
        decreases self, 1nat,
    {
        self.message() + "\n"@ + match self.location() {
            Some((line_number, line)) => located(line_number, line, self.underlined()),
            None => seq![],
        }
    }
}

/// The line that underlines the given spans of `line`
pub fn underline_spans(line: &str, spans: &Vec<TokenSpan>) -> (marks: String)
    ensures
        marks@ == underline(utf8_len(line@), spans@),
{
    let length: usize = line.as_bytes().len();
    let mut marks: Vec<char> = vec![' '; length];
    let mut k: usize = 0;
    while k < spans.len()
        invariant
            k <= spans@.len(),
            marks@.len() == length,
            forall|i: int|
                0 <= i < length ==> marks@[i] == if exists|j: int|
                    0 <= j < k && (#[trigger] spans@[j]).start <= i < spans@[j].end {
                    '^'
                } else {
                    ' '
                },
        decreases spans@.len() - k,
    {
        let span: TokenSpan = spans[k];
        let stop: usize = if span.end() < length {
            span.end()
        } else {
            length
        };
        let mut i: usize = span.start();
        while i < stop
            invariant
                k < spans@.len(),
                span == spans@[k as int],
                stop <= length,
                stop <= span.end,
                span.start <= i,
                i <= stop || i == span.start,
                marks@.len() == length,
                forall|p: int|
                    0 <= p < length ==> marks@[p] == if (exists|j: int|
                        0 <= j < k && (#[trigger] spans@[j]).start <= p < spans@[j].end) || (
                    span.start <= p < i) {
                        '^'
                    } else {
                        ' '
                    },
            decreases stop - i,
        {
            marks[i] = '^';
            i += 1;
        }
        proof {
            assert forall|p: int| 0 <= p < length implies marks@[p] == if exists|j: int|
                0 <= j < k + 1 && (#[trigger] spans@[j]).start <= p < spans@[j].end {
                '^'
            } else {
                ' '
            } by {
                let before = exists|j: int|
                    0 <= j < k && (#[trigger] spans@[j]).start <= p < spans@[j].end;
                let here = span.start <= p < i;
                assert(here == (spans@[k as int].start <= p < spans@[k as int].end));
                if before {
                    let j = choose|j: int|
                        0 <= j < k && (#[trigger] spans@[j]).start <= p < spans@[j].end;
                    assert(0 <= j < k + 1 && spans@[j].start <= p < spans@[j].end);
                }
            }
        }
        k += 1;
    }
    assert(marks@ =~= underline(utf8_len(line@), spans@));
    string_of(&marks, 0, length)
}


/// Appends the numbers in decimal, separated by a comma and a blank
fn push_listed(out: &mut String, numbers: &Vec<usize>)
    ensures
        final(out)@ == old(out)@ + listed(numbers@),
{
    let mut i: usize = 0;
    while i < numbers.len()
        invariant
            i <= numbers@.len(),
            out@ == old(out)@ + listed(numbers@.take(i as int)),
        decreases numbers@.len() - i,
    {
        let ghost front = numbers@.take(i as int);
        let ghost next = numbers@.take(i + 1);
        assert(next.drop_last() =~= front);
        let ghost before = out@;
        if i > 0 {
            out.append(", ");
        }
        push_decimal(out, numbers[i]);
        proof {
            if i > 0 {
                assert(out@ =~= old(out)@ + (listed(front) + ", "@ + decimal(
                    numbers@[i as int] as nat,
                )));
            } else {
                assert(listed(front) =~= Seq::<char>::empty());
                assert(out@ =~= old(out)@ + decimal(numbers@[i as int] as nat));
            }
        }
        i += 1;
    }
    assert(numbers@.take(i as int) =~= numbers@);
}

impl Error {
    /// Appends the first line of the report
    fn push_message(&self, out: &mut String)
        ensures
            final(out)@ == old(out)@ + self@.message(),
        decreases self, 0nat,
    {
        match self {
            Error::UnknownInstruction { instruction, line_number, .. } => {
                out.append("unknown instruction \"");
                out.append(instruction.as_str());
                out.append("\" at line ");
                push_decimal(out, *line_number);
            },
            Error::InvalidArgument { argument, line_number, .. } => {
                out.append("invalid argument \"");
                out.append(argument.as_str());
                out.append("\" at line ");
                push_decimal(out, *line_number);
            },
            Error::InvalidArgumentCount { instruction, n_arguments, expected, line_number, .. } => {
                out.append("invalid argument count for instruction \"");
                out.append(instruction.as_str());
                out.append("\" at line ");
                push_decimal(out, *line_number);
                out.append(": found ");
                push_decimal(out, *n_arguments);
                out.append(", expected [");
                push_listed(out, expected);
                out.append("]");
            },
            Error::UserError { message, line_number, .. } => {
                out.append("line ");
                push_decimal(out, *line_number);
                out.append(": ");
                out.append(message.as_str());
            },
            Error::ReadError { path } => {
                out.append("failed to read file ");
                out.append(path.as_str());
            },
            Error::IncludeError { path, error, line_number, .. } => {
                out.append("in file ");
                out.append(path.as_str());
                out.append(" included at line ");
                push_decimal(out, *line_number);
                out.append(": ");
                error.push_report(out);
            },
            Error::ArgumentOverflow { argument, expected_n_bits, line_number, .. } => {
                out.append("argument overflow at line ");
                push_decimal(out, *line_number);
                out.append(": maximum allowed value ");
                push_decimal(out, max_value(*expected_n_bits) as usize);
                out.append(" (to fit in ");
                push_decimal(out, *expected_n_bits);
                out.append(" bits), got ");
                push_decimal(out, *argument as usize);
            },
            Error::InvalidArgumentIndex { requested_index, n_arguments } => {
                out.append("invalid argument index ");
                push_decimal(out, *requested_index);
                out.append(" requested; number of arguments: ");
                push_decimal(out, *n_arguments);
                out.append(
                    ". If you see this, this is probably an internal bug in the assembler itself. Please, submit a GitHub issue.",
                );
            },
        }
        assert(out@ =~= old(out)@ + self@.message());
    }

    /// Appends the report
    fn push_report(&self, out: &mut String)
        ensures
            final(out)@ == old(out)@ + self@.report(),
        decreases self, 1nat,
    {
        self.push_message(out);
        out.append("\n");
        match self {
            Error::UnknownInstruction { instruction_span, line_number, line, .. } => {
                let spans: Vec<TokenSpan> = vec![*instruction_span];
                assert(spans@ =~= self@.underlined());
                push_location(out, *line_number, line.as_str(), &spans);
            },
            Error::InvalidArgument { argument_span, line_number, line, .. } => {
                let spans: Vec<TokenSpan> = vec![*argument_span];
                assert(spans@ =~= self@.underlined());
                push_location(out, *line_number, line.as_str(), &spans);
            },
            Error::InvalidArgumentCount { extra_argument_spans, line_number, line, .. } => {
                push_location(out, *line_number, line.as_str(), extra_argument_spans);
            },
            Error::UserError { line_number, line, .. } => {
                let spans: Vec<TokenSpan> = Vec::new();
                assert(spans@ =~= self@.underlined());
                push_location(out, *line_number, line.as_str(), &spans);
            },
            Error::ReadError { .. } => {},
            Error::IncludeError { line_number, line, .. } => {
                let spans: Vec<TokenSpan> = Vec::new();
                assert(spans@ =~= self@.underlined());
                push_location(out, *line_number, line.as_str(), &spans);
            },
            Error::ArgumentOverflow { argument_span, line_number, line, .. } => {
                let spans: Vec<TokenSpan> = vec![*argument_span];
                assert(spans@ =~= self@.underlined());
                push_location(out, *line_number, line.as_str(), &spans);
            },
            Error::InvalidArgumentIndex { .. } => {},
        }
        assert(out@ =~= old(out)@ + self@.report());
    }

    /// The report of the error: the message on a line of its own; then,
    /// where the error is about a line of the source, its number, a tab and
    /// the line; then, where spans of it are to be pointed out, a second
    /// line that underlines them
    pub fn to_string(&self) -> (report: String)
        ensures
            report@ == self@.report(),
    {
        let mut report = String::new();
        self.push_report(&mut report);
        assert(report@ =~= self@.report());
        report
    }
}

/// What a report says of the line that the error is about
pub open spec fn located(line_number: usize, line: Seq<char>, spans: Seq<TokenSpan>) -> Seq<char> {
    decimal(line_number as nat) + "\t"@ + line + if spans.len() != 0 {
        "\n\t"@ + underline(utf8_len(line), spans)
    } else {
        seq![]
    }
}

/// Appends the line that the error is about, and the line that underlines the spans
fn push_location(out: &mut String, line_number: usize, line: &str, spans: &Vec<TokenSpan>)
    ensures
        final(out)@ == old(out)@ + located(line_number, line@, spans@),
{
    push_decimal(out, line_number);
    out.append("\t");
    out.append(line);
    if spans.len() != 0 {
        out.append("\n\t");
        let marks = underline_spans(line, spans);
        out.append(marks.as_str());
    }
    assert(out@ =~= old(out)@ + located(line_number, line@, spans@));
}


impl ErrorView {
    /// The path of the file that could not be read, where that is what
    /// the error comes down to: a read error, or an error in an included
    /// file that itself comes down to one
    pub open spec fn missing_file(self) -> Option<Seq<char>>
        decreases self,
    {
        match self {
            ErrorView::ReadError { path } => Some(path),
            ErrorView::IncludeError { error, .. } => error.missing_file(),
            _ => None,
        }
    }
}

impl Error {
    /// The path of the file that could not be read, where that is what
    /// the error comes down to
    pub fn missing_file(&self) -> (path: Option<&str>)
        ensures
            match path {
                Some(path) => self@.missing_file() == Some(path@),
                None => self@.missing_file() is None,
            },
        decreases self,
    {
        match self {
            Error::ReadError { path } => Some(path.as_str()),
            Error::IncludeError { error, .. } => error.missing_file(),
            _ => None,
        }
    }
}


impl ErrorView {
    /// The report without the line that underlines
    pub open spec fn head(self) -> Seq<char> {
        self.message() + "\n"@ + match self.location() {
            Some((line_number, line)) => decimal(line_number as nat) + "\t"@ + line,
            None => seq![],
        }
    }

    /// The line that underlines, where the report has one, without the tab before it
    pub open spec fn marks(self) -> Option<Seq<char>> {
        match self.location() {
            Some((_, line)) if self.underlined().len() != 0 => Some(
                underline(utf8_len(line), self.underlined()),
            ),
            _ => None,
        }
    }

    /// A report is its head and, where spans are underlined, a line feed,
    /// a tab and the marks
    pub proof fn law_report_is_head_and_marks(self)
        ensures
            self.report() == self.head() + match self.marks() {
                Some(marks) => "\n\t"@ + marks,
                None => seq![],
            },
    {
        let tail = match self.marks() {
            Some(marks) => "\n\t"@ + marks,
            None => seq![],
        };
        assert(self.report() =~= self.head() + tail);
    }
}

impl Error {
    /// The report without the line that underlines
    pub fn head(&self) -> (head: String)
        ensures
            head@ == self@.head(),
    {
        let mut head = String::new();
        self.push_message(&mut head);
        head.append("\n");
        let ghost before = head@;
        match self {
            Error::UnknownInstruction { line_number, line, .. }
            | Error::InvalidArgument { line_number, line, .. }
            | Error::InvalidArgumentCount { line_number, line, .. }
            | Error::UserError { line_number, line, .. }
            | Error::IncludeError { line_number, line, .. }
            | Error::ArgumentOverflow { line_number, line, .. } => {
                push_decimal(&mut head, *line_number);
                head.append("\t");
                head.append(line.as_str());
                assert(head@ =~= before + (decimal(*line_number as nat) + "\t"@ + line@));
            },
            Error::ReadError { .. } | Error::InvalidArgumentIndex { .. } => {},
        }
        assert(head@ =~= self@.head());
        head
    }

    /// The line that underlines, where the report has one, without the tab before it
    pub fn marks(&self) -> (marks: Option<String>)
        ensures
            match marks {
                Some(marks) => self@.marks() == Some(marks@),
                None => self@.marks() is None,
            },
    {
        match self {
            Error::UnknownInstruction { instruction_span, line, .. } => {
                let spans: Vec<TokenSpan> = vec![*instruction_span];
                assert(spans@ =~= self@.underlined());
                Some(underline_spans(line.as_str(), &spans))
            },
            Error::InvalidArgument { argument_span, line, .. } => {
                let spans: Vec<TokenSpan> = vec![*argument_span];
                assert(spans@ =~= self@.underlined());
                Some(underline_spans(line.as_str(), &spans))
            },
            Error::ArgumentOverflow { argument_span, line, .. } => {
                let spans: Vec<TokenSpan> = vec![*argument_span];
                assert(spans@ =~= self@.underlined());
                Some(underline_spans(line.as_str(), &spans))
            },
            Error::InvalidArgumentCount { extra_argument_spans, line, .. } => {
                if extra_argument_spans.len() != 0 {
                    Some(underline_spans(line.as_str(), extra_argument_spans))
                } else {
                    None
                }
            },
            _ => None,
        }
    }
}

} // verus!
