//! Prepares a source text for the two passes.
//!
//! Comments and blank lines are dropped and every line is trimmed. A
//! comment starts at a semicolon, wherever it stands, and runs to the end
//! of the line. Definitions of macros are taken out of the text, and every
//! line that calls a macro is replaced by the body of the macro.
//!
//! A macro is defined by a line `.macro NAME p1 p2 ...`, one or more lines
//! of body and a line `.endmacro`. A line whose first token is the name of
//! a macro calls it; the other tokens are the arguments, one for each
//! parameter. In the body every `$p` is replaced by the argument for the
//! parameter `p`, one parameter after the other, by plain substitution of
//! text. The macros are expanded one after the other in the order of their
//! definitions, each once over the whole text, so the body of a macro may
//! call a macro that is defined after it. Nothing keeps the text of an
//! argument apart from the text around it: what a substitution leaves is
//! read again as it stands.

use crate::assembler::error::{Error, ErrorView};
use crate::assembler::lexer::{lex, lex_statement, lexed, tokens};
use crate::text::{
    chars_of, find, find_char, str_eq, string_of, strip_bounds, to_upper, trim, uppercase,
};
use vstd::prelude::*;
use vstd::slice::{slice_subrange, slice_to_vec};

verus! {

/// A line of the text, with the number that it has in the source
pub struct Line {
    pub origin: usize,
    pub text: Vec<char>,
}

/// What a [`Line`] holds
pub struct LineView {
    pub origin: usize,
    pub text: Seq<char>,
}

impl View for Line {
    type V = LineView;

    open spec fn view(&self) -> LineView {
        LineView { origin: self.origin, text: self.text@ }
    }
}

/// The views of some lines
pub open spec fn line_views(lines: Seq<Line>) -> Seq<LineView> {
    Seq::new(lines.len(), |i: int| lines[i]@)
}

/// A raw line without its comment and without white space at its ends
pub open spec fn clean(raw: Seq<char>) -> Seq<char> {
    trim(raw.take(find_char(raw, ';', 0)))
}

/// The lines of a source from the character `from` on, which starts the
/// line with the given number: the source is split at every line feed,
/// every line is cleaned, and the lines of which nothing is left are dropped
pub open spec fn cleaned_from(source: Seq<char>, from: int, number: int) -> Seq<LineView>
    decreases source.len() - from,
{
    if from < 0 || from > source.len() {
        seq![]
    } else {
        let end = find_char(source, '\n', from);
        let text = clean(source.subrange(from, end));
        let here = if text.len() > 0 {
            seq![LineView { origin: number as usize, text }]
        } else {
            seq![]
        };
        if from <= end < source.len() {
            here + cleaned_from(source, end + 1, number + 1)
        } else {
            here
        }
    }
}

/// The cleaned lines of a source, numbered from 1
pub open spec fn cleaned(source: Seq<char>) -> Seq<LineView> {
    cleaned_from(source, 0, 1)
}

/// The cleaned lines of a source
pub fn clean_lines(source: &[char]) -> (lines: Vec<Line>)
    ensures
        line_views(lines@) == cleaned(source@),
{
    let ghost s = source@;
    let mut lines: Vec<Line> = Vec::new();
    let mut from: usize = 0;
    let mut newlines: usize = 0;
    loop
        invariant_except_break
            line_views(lines@) + cleaned_from(s, from as int, newlines + 1) == cleaned(s),
        invariant
            s == source@,
            from <= s.len(),
            newlines <= from,
        ensures
            line_views(lines@) == cleaned(s),
        decreases s.len() - from,
    {
        let end: usize = find(source, '\n', from);
        let raw = slice_subrange(source, from, end);
        let stop: usize = find(raw, ';', 0);
        let code = slice_subrange(raw, 0, stop);
        let (a, b) = strip_bounds(code, None, true);
        let ghost before = line_views(lines@);
        let ghost text = clean(s.subrange(from as int, end as int));
        proof {
            assert(code@ =~= raw@.take(stop as int));
            assert(code@.subrange(a as int, b as int) == text);
        }
        if a < b {
            let mut kept: Vec<char> = Vec::new();
            let mut i: usize = a;
            while i < b
                invariant
                    a <= i <= b <= code@.len(),
                    kept@ == code@.subrange(a as int, i as int),
                decreases b - i,
            {
                kept.push(code[i]);
                assert(code@.subrange(a as int, i + 1) =~= code@.subrange(a as int, i as int).push(
                    code@[i as int],
                ));
                i += 1;
            }
            lines.push(Line { origin: newlines + 1, text: kept });
            proof {
                assert(line_views(lines@) =~= before + seq![
                    LineView { origin: (newlines + 1) as usize, text },
                ]);
            }
        }
        proof {
            let here = if text.len() > 0 {
                seq![LineView { origin: (newlines + 1) as usize, text }]
            } else {
                seq![]
            };
            assert(line_views(lines@) =~= before + here);
            if end < s.len() {
                assert(line_views(lines@) + cleaned_from(s, end + 1, newlines + 2) =~= before + (
                here + cleaned_from(s, end + 1, newlines + 2)));
            } else {
                assert(line_views(lines@) =~= before + here);
            }
        }
        if end >= source.len() {
            break ;
        }
        from = end + 1;
        newlines += 1;
    }
    lines
}


// Macros

/// A macro: its name, its parameters and the lines of its body
pub struct Macro {
    pub name: Vec<char>,
    pub parameters: Vec<Vec<char>>,
    pub body: Vec<Vec<char>>,
}

/// What a [`Macro`] holds
pub struct MacroView {
    pub name: Seq<char>,
    pub parameters: Seq<Seq<char>>,
    pub body: Seq<Seq<char>>,
}

/// The views of some texts
pub open spec fn texts(lines: Seq<Vec<char>>) -> Seq<Seq<char>> {
    Seq::new(lines.len(), |i: int| lines[i]@)
}

impl View for Macro {
    type V = MacroView;

    open spec fn view(&self) -> MacroView {
        MacroView {
            name: self.name@,
            parameters: texts(self.parameters@),
            body: texts(self.body@),
        }
    }
}

/// The views of some macros
pub open spec fn macro_views(macros: Seq<Macro>) -> Seq<MacroView> {
    Seq::new(macros.len(), |i: int| macros[i]@)
}

/// The tokens of a line, as text
pub open spec fn words(line: Seq<char>) -> Seq<Seq<char>> {
    Seq::new(
        tokens(line, 0).len(),
        |i: int| line.subrange(tokens(line, 0)[i].0, tokens(line, 0)[i].1),
    )
}

/// Whether a line opens the definition of a macro: `.macro` and a name
pub open spec fn opens_macro(line: Seq<char>) -> bool {
    words(line).len() >= 2 && uppercase(words(line)[0]) == ".MACRO"@
}

/// Whether a line closes the definition of a macro: `.endmacro`
pub open spec fn closes_macro(line: Seq<char>) -> bool {
    words(line).len() >= 1 && uppercase(words(line)[0]) == ".ENDMACRO"@
}

/// The index of the first line at or after `from` that closes a
/// definition, or the number of lines where there is none
pub open spec fn closing_line(lines: Seq<LineView>, from: int) -> int
    decreases lines.len() - from,
{
    if from < 0 || from >= lines.len() {
        lines.len() as int
    } else if closes_macro(lines[from].text) {
        from
    } else {
        closing_line(lines, from + 1)
    }
}

/// The macro that line `at` starts to define and the index of the line
/// after the definition. A definition has at least one line of body; a
/// line `.macro` that no line `.endmacro` follows, or one that follows at
/// once, defines nothing and stays in the text.
pub open spec fn definition_at(lines: Seq<LineView>, at: int) -> Option<(MacroView, int)> {
    let end = closing_line(lines, at + 1);
    if opens_macro(lines[at].text) && at + 1 < end < lines.len() {
        Some(
            (
                MacroView {
                    name: words(lines[at].text)[1],
                    parameters: words(lines[at].text).skip(2),
                    body: Seq::new((end - at - 1) as nat, |k: int| lines[at + 1 + k].text),
                },
                end + 1,
            ),
        )
    } else {
        None
    }
}

/// The macros that the lines from `from` on define, in order, and the
/// lines that belong to no definition
pub open spec fn collected(lines: Seq<LineView>, from: int) -> (Seq<MacroView>, Seq<LineView>)
    decreases lines.len() - from,
{
    if from < 0 || from >= lines.len() {
        (seq![], seq![])
    } else {
        match definition_at(lines, from) {
            Some((defined, next)) => {
                (seq![defined] + collected(lines, next).0, collected(lines, next).1)
            },
            None => (collected(lines, from + 1).0, seq![lines[from]] + collected(lines, from + 1).1),
        }
    }
}

/// Whether `pattern` stands in `s` at index `at`
pub open spec fn occurs_at(s: Seq<char>, pattern: Seq<char>, at: int) -> bool {
    0 <= at && at + pattern.len() <= s.len() && s.subrange(at, at + pattern.len()) == pattern
}

/// `s` from index `at` on, with every occurrence of `pattern` replaced by
/// `with`: the occurrences are found from left to right and do not overlap
pub open spec fn replaced_from(s: Seq<char>, pattern: Seq<char>, with: Seq<char>, at: int) -> Seq<
    char,
>
    decreases s.len() - at,
{
    if at < 0 || at >= s.len() {
        seq![]
    } else if pattern.len() > 0 && occurs_at(s, pattern, at) {
        with + replaced_from(s, pattern, with, at + pattern.len())
    } else {
        seq![s[at]] + replaced_from(s, pattern, with, at + 1)
    }
}

/// What stands in a body for a parameter: `$` and its name
pub open spec fn placeholder(parameter: Seq<char>) -> Seq<char> {
    seq!['$'] + parameter
}

/// A line of a body with the arguments put in for the parameters from
/// parameter `k` on, one after the other
pub open spec fn substituted(
    text: Seq<char>,
    parameters: Seq<Seq<char>>,
    arguments: Seq<Seq<char>>,
    k: int,
) -> Seq<char>
    decreases parameters.len() - k,
{
    if k < 0 || k >= parameters.len() || k >= arguments.len() {
        text
    } else {
        substituted(
            replaced_from(text, placeholder(parameters[k]), arguments[k], 0),
            parameters,
            arguments,
            k + 1,
        )
    }
}

/// What a line becomes when one macro is expanded: the body with the
/// arguments put in, where the line calls the macro, and the line itself
/// where it does not. The lines of the body take the number of the call.
/// A call with the wrong number of arguments is an error.
pub open spec fn expanded_line(defined: MacroView, line: LineView) -> Result<
    Seq<LineView>,
    ErrorView,
> {
    match lexed(line.text, line.origin) {
        Some(call) if call.instruction == defined.name => {
            if call.arguments.len() != defined.parameters.len() {
                Err(
                    call.invalid_argument_count(
                        call.arguments.len() as usize,
                        seq![defined.parameters.len() as usize],
                    ),
                )
            } else {
                Ok(
                    Seq::new(
                        defined.body.len(),
                        |i: int|
                            LineView {
                                origin: line.origin,
                                text: substituted(
                                    defined.body[i],
                                    defined.parameters,
                                    call.arguments,
                                    0,
                                ),
                            },
                    ),
                )
            }
        },
        _ => Ok(seq![line]),
    }
}

/// The first `n` lines with one macro expanded
pub open spec fn expanded(defined: MacroView, lines: Seq<LineView>, n: int) -> Result<
    Seq<LineView>,
    ErrorView,
>
    decreases n,
{
    if n <= 0 {
        Ok(seq![])
    } else {
        match expanded(defined, lines, n - 1) {
            Err(error) => Err(error),
            Ok(done) => match expanded_line(defined, lines[n - 1]) {
                Err(error) => Err(error),
                Ok(more) => Ok(done + more),
            },
        }
    }
}

/// The lines with the first `k` macros expanded, one after the other
pub open spec fn expanded_all(macros: Seq<MacroView>, lines: Seq<LineView>, k: int) -> Result<
    Seq<LineView>,
    ErrorView,
>
    decreases k,
{
    if k <= 0 {
        Ok(lines)
    } else {
        match expanded_all(macros, lines, k - 1) {
            Err(error) => Err(error),
            Ok(done) => expanded(macros[k - 1], done, done.len() as int),
        }
    }
}

/// The lines that the two passes work on
pub open spec fn preprocessed(source: Seq<char>) -> Result<Seq<Seq<char>>, ErrorView> {
    let (macros, lines) = collected(cleaned(source), 0);
    match expanded_all(macros, lines, macros.len() as int) {
        Err(error) => Err(error),
        Ok(done) => Ok(Seq::new(done.len(), |i: int| done[i].text)),
    }
}

/// Whether two texts are the same
fn same_text(a: &[char], b: &[char]) -> (same: bool)
    ensures
        same == (a@ == b@),
{
    if a.len() != b.len() {
        return false;
    }
    let mut i: usize = 0;
    while i < a.len()
        invariant
            a@.len() == b@.len(),
            i <= a@.len(),
            forall|j: int| 0 <= j < i ==> a@[j] == b@[j],
        decreases a@.len() - i,
    {
        if a[i] != b[i] {
            return false;
        }
        i += 1;
    }
    assert(a@ =~= b@);
    true
}

/// The tokens of a line, as text
fn words_of(line: &[char]) -> (found: Vec<Vec<char>>)
    ensures
        texts(found@) == words(line@),
{
    let spans = lex(line);
    let mut found: Vec<Vec<char>> = Vec::new();
    let mut i: usize = 0;
    while i < spans.len()
        invariant
            i <= spans@.len(),
            spans@.len() == tokens(line@, 0).len(),
            forall|k: int|
                0 <= k < spans@.len() ==> (#[trigger] spans@[k]).0 == tokens(line@, 0)[k].0
                    && spans@[k].1 == tokens(line@, 0)[k].1,
            forall|k: int|
                0 <= k < spans@.len() ==> (#[trigger] spans@[k]).0 < spans@[k].1 <= line@.len(),
            found@.len() == i,
            forall|k: int| 0 <= k < i ==> (#[trigger] found@[k])@ == words(line@)[k],
        decreases spans@.len() - i,
    {
        let (from, to) = spans[i];
        found.push(slice_to_vec(slice_subrange(line, from, to)));
        i += 1;
    }
    assert(texts(found@) =~= words(line@));
    found
}

/// Whether the first of some words, in upper case, is `keyword`
fn starts_with_keyword(found: &Vec<Vec<char>>, keyword: &str) -> (starts: bool)
    ensures
        starts == (found@.len() >= 1 && uppercase(found@[0]@) == keyword@),
{
    if found.len() == 0 {
        return false;
    }
    let first = string_of(&found[0], 0, found[0].len());
    assert(first@ =~= found@[0]@);
    let upper = to_upper(first.as_str());
    str_eq(upper.as_str(), keyword)
}

/// The index of the first line at or after `from` that closes a definition
fn find_closing_line(lines: &Vec<Line>, from: usize) -> (at: usize)
    requires
        from <= lines@.len(),
    ensures
        at == closing_line(line_views(lines@), from as int),
        from <= at <= lines@.len(),
{
    let mut at: usize = from;
    while at < lines.len()
        invariant
            from <= at <= lines@.len(),
            closing_line(line_views(lines@), from as int) == closing_line(
                line_views(lines@),
                at as int,
            ),
        decreases lines@.len() - at,
    {
        let found = words_of(lines[at].text.as_slice());
        assert(line_views(lines@)[at as int].text == lines@[at as int].text@);
        if starts_with_keyword(&found, ".ENDMACRO") {
            return at;
        }
        at += 1;
    }
    at
}

/// The macros that the lines define, and the lines that belong to no definition
pub fn collect(lines: &Vec<Line>) -> (out: (Vec<Macro>, Vec<Line>))
    ensures
        macro_views(out.0@) == collected(line_views(lines@), 0).0,
        line_views(out.1@) == collected(line_views(lines@), 0).1,
{
    let ghost all = line_views(lines@);
    let mut macros: Vec<Macro> = Vec::new();
    let mut rest: Vec<Line> = Vec::new();
    let mut at: usize = 0;
    while at < lines.len()
        invariant
            all == line_views(lines@),
            at <= lines@.len(),
            macro_views(macros@) + collected(all, at as int).0 == collected(all, 0).0,
            line_views(rest@) + collected(all, at as int).1 == collected(all, 0).1,
        decreases lines@.len() - at,
    {
        let ghost macros_before = macro_views(macros@);
        let ghost rest_before = line_views(rest@);
        let header = words_of(lines[at].text.as_slice());
        assert(all[at as int].text == lines@[at as int].text@);
        let end: usize = find_closing_line(lines, at + 1);
        if header.len() >= 2 && starts_with_keyword(&header, ".MACRO") && at + 1 < end && end
            < lines.len() {
            let mut parameters: Vec<Vec<char>> = Vec::new();
            let mut p: usize = 2;
            while p < header.len()
                invariant
                    2 <= p <= header@.len(),
                    parameters@.len() == p - 2,
                    forall|k: int| 0 <= k < p - 2 ==> (#[trigger] parameters@[k])@ == header@[k + 2]@,
                decreases header@.len() - p,
            {
                parameters.push(slice_to_vec(header[p].as_slice()));
                p += 1;
            }
            let mut body: Vec<Vec<char>> = Vec::new();
            let mut b: usize = at + 1;
            while b < end
                invariant
                    at + 1 <= b <= end < lines@.len(),
                    body@.len() == b - at - 1,
                    forall|k: int| 0 <= k < b - at - 1 ==> (#[trigger] body@[k])@ == lines@[at + 1 + k].text@,
                decreases end - b,
            {
                body.push(slice_to_vec(lines[b].text.as_slice()));
                b += 1;
            }
            let defined = Macro { name: slice_to_vec(header[1].as_slice()), parameters, body };
            proof {
                let expected = definition_at(all, at as int).unwrap().0;
                assert(texts(header@) == words(all[at as int].text));
                assert(header@[1]@ == texts(header@)[1]);
                assert(defined@.name == expected.name);
                assert forall|k: int| 0 <= k < defined.parameters@.len() implies texts(
                    defined.parameters@,
                )[k] == expected.parameters[k] by {
                    assert(header@[k + 2]@ == texts(header@)[k + 2]);
                }
                assert(defined@.parameters =~= expected.parameters);
                assert forall|k: int| 0 <= k < defined.body@.len() implies texts(defined.body@)[k]
                    == expected.body[k] by {
                    assert(all[at + 1 + k].text == lines@[at + 1 + k].text@);
                }
                assert(defined@.body =~= expected.body);
                assert(defined@ == expected);
            }
            macros.push(defined);
            proof {
                assert(macro_views(macros@) =~= macros_before + seq![defined@]);
                assert(macro_views(macros@) + collected(all, end + 1).0 =~= macros_before + (
                seq![defined@] + collected(all, end + 1).0));
            }
            at = end + 1;
        } else {
            proof {
                assert(texts(header@) == words(all[at as int].text));
                if header@.len() >= 1 {
                    assert(header@[0]@ == texts(header@)[0]);
                }
                assert(definition_at(all, at as int) is None);
            }
            let kept = Line { origin: lines[at].origin, text: slice_to_vec(lines[at].text.as_slice()) };
            assert(kept@ == all[at as int]);
            rest.push(kept);
            proof {
                assert(line_views(rest@) =~= rest_before + seq![all[at as int]]);
                assert(line_views(rest@) + collected(all, at + 1).1 =~= rest_before + (seq![
                    all[at as int],
                ] + collected(all, at + 1).1));
            }
            at += 1;
        }
    }
    proof {
        assert(macro_views(macros@) + Seq::<MacroView>::empty() =~= macro_views(macros@));
        assert(line_views(rest@) + Seq::<LineView>::empty() =~= line_views(rest@));
    }
    (macros, rest)
}


/// Whether `pattern` stands in `s` at index `at`
fn stands_at(s: &[char], pattern: &[char], at: usize) -> (stands: bool)
    requires
        at <= s@.len(),
    ensures
        stands == occurs_at(s@, pattern@, at as int),
{
    if pattern.len() > s.len() - at {
        return false;
    }
    same_text(slice_subrange(s, at, at + pattern.len()), pattern)
}

/// Appends the characters of `s` to `out`
fn extend(out: &mut Vec<char>, s: &[char])
    ensures
        final(out)@ == old(out)@ + s@,
{
    let mut i: usize = 0;
    while i < s.len()
        invariant
            i <= s@.len(),
            out@ == old(out)@ + s@.take(i as int),
        decreases s@.len() - i,
    {
        out.push(s[i]);
        assert(out@ =~= old(out)@ + s@.take(i + 1));
        i += 1;
    }
    assert(s@.take(i as int) =~= s@);
}

/// `s` with every occurrence of `pattern` replaced by `with`
pub fn replace(s: &[char], pattern: &[char], with: &[char]) -> (out: Vec<char>)
    ensures
        out@ == replaced_from(s@, pattern@, with@, 0),
{
    let mut out: Vec<char> = Vec::new();
    let mut at: usize = 0;
    while at < s.len()
        invariant
            at <= s@.len(),
            out@ + replaced_from(s@, pattern@, with@, at as int) == replaced_from(
                s@,
                pattern@,
                with@,
                0,
            ),
        decreases s@.len() - at,
    {
        let ghost before = out@;
        if pattern.len() > 0 && stands_at(s, pattern, at) {
            extend(&mut out, with);
            proof {
                assert(out@ + replaced_from(s@, pattern@, with@, at + pattern@.len()) =~= before
                    + (with@ + replaced_from(s@, pattern@, with@, at + pattern@.len())));
            }
            at += pattern.len();
        } else {
            out.push(s[at]);
            proof {
                assert(out@ + replaced_from(s@, pattern@, with@, at + 1) =~= before + (seq![
                    s@[at as int],
                ] + replaced_from(s@, pattern@, with@, at + 1)));
            }
            at += 1;
        }
    }
    assert(out@ + Seq::<char>::empty() =~= out@);
    out
}

/// A line of a body with the arguments put in for the parameters
fn substitute(text: &[char], parameters: &Vec<Vec<char>>, arguments: &Vec<Vec<char>>) -> (out: Vec<
    char,
>)
    requires
        parameters@.len() == arguments@.len(),
    ensures
        out@ == substituted(text@, texts(parameters@), texts(arguments@), 0),
{
    let mut out: Vec<char> = slice_to_vec(text);
    let mut k: usize = 0;
    while k < parameters.len()
        invariant
            k <= parameters@.len() == arguments@.len(),
            substituted(out@, texts(parameters@), texts(arguments@), k as int) == substituted(
                text@,
                texts(parameters@),
                texts(arguments@),
                0,
            ),
        decreases parameters@.len() - k,
    {
        let mut pattern: Vec<char> = Vec::new();
        pattern.push('$');
        extend(&mut pattern, parameters[k].as_slice());
        assert(pattern@ =~= placeholder(texts(parameters@)[k as int]));
        assert(arguments@[k as int]@ == texts(arguments@)[k as int]);
        out = replace(out.as_slice(), pattern.as_slice(), arguments[k].as_slice());
        k += 1;
    }
    out
}

/// What a line becomes when one macro is expanded
fn expand_line(defined: &Macro, line: &Line) -> (out: Result<Vec<Line>, Error>)
    ensures
        match out {
            Ok(lines) => expanded_line(defined@, line@) == Ok::<Seq<LineView>, ErrorView>(
                line_views(lines@),
            ),
            Err(error) => expanded_line(defined@, line@) == Err::<Seq<LineView>, ErrorView>(
                error@,
            ),
        },
{
    let text = string_of(&line.text, 0, line.text.len());
    assert(text@ =~= line.text@);
    let mut lines: Vec<Line> = Vec::new();
    match lex_statement(text.as_str(), line.origin) {
        None => {},
        Some(call) => {
            let name = chars_of(call.instruction());
            if same_text(name.as_slice(), defined.name.as_slice()) {
                let n: usize = call.n_arguments();
                if n != defined.parameters.len() {
                    let expected: [usize; 1] = [defined.parameters.len()];
                    assert(expected@ =~= seq![defined.parameters@.len() as usize]);
                    return Err(call.invalid_argument_count(n, expected.as_slice()));
                }
                let mut arguments: Vec<Vec<char>> = Vec::new();
                let mut i: usize = 0;
                while i < n
                    invariant
                        i <= n == call@.arguments.len(),
                        arguments@.len() == i,
                        forall|k: int|
                            0 <= k < i ==> (#[trigger] arguments@[k])@ == call@.arguments[k],
                    decreases n - i,
                {
                    match call.argument(i) {
                        Ok(argument) => {
                            arguments.push(chars_of(argument));
                        },
                        Err(_) => {
                            arguments.push(Vec::new());
                        },
                    }
                    i += 1;
                }
                assert(texts(arguments@) =~= call@.arguments);
                let mut b: usize = 0;
                while b < defined.body.len()
                    invariant
                        b <= defined.body@.len(),
                        defined.parameters@.len() == arguments@.len(),
                        texts(arguments@) == call@.arguments,
                        lines@.len() == b,
                        forall|k: int|
                            0 <= k < b ==> (#[trigger] lines@[k])@ == (LineView {
                                origin: line.origin,
                                text: substituted(
                                    defined@.body[k],
                                    defined@.parameters,
                                    call@.arguments,
                                    0,
                                ),
                            }),
                    decreases defined.body@.len() - b,
                {
                    let text = substitute(
                        defined.body[b].as_slice(),
                        &defined.parameters,
                        &arguments,
                    );
                    assert(defined.body@[b as int]@ == defined@.body[b as int]);
                    lines.push(Line { origin: line.origin, text });
                    b += 1;
                }
                assert(line_views(lines@) =~= expanded_line(defined@, line@)->Ok_0);
                return Ok(lines);
            }
        },
    }
    lines.push(Line { origin: line.origin, text: slice_to_vec(line.text.as_slice()) });
    assert(line_views(lines@) =~= seq![line@]);
    Ok(lines)
}

/// The lines with one macro expanded
fn expand(defined: &Macro, lines: &Vec<Line>) -> (out: Result<Vec<Line>, Error>)
    ensures
        match out {
            Ok(done) => expanded(defined@, line_views(lines@), lines@.len() as int) == Ok::<
                Seq<LineView>,
                ErrorView,
            >(line_views(done@)),
            Err(error) => expanded(defined@, line_views(lines@), lines@.len() as int) == Err::<
                Seq<LineView>,
                ErrorView,
            >(error@),
        },
{
    let ghost all = line_views(lines@);
    let mut done: Vec<Line> = Vec::new();
    let mut n: usize = 0;
    assert(line_views(done@) =~= Seq::<LineView>::empty());
    while n < lines.len()
        invariant
            all == line_views(lines@),
            n <= lines@.len(),
            expanded(defined@, all, n as int) == Ok::<Seq<LineView>, ErrorView>(
                line_views(done@),
            ),
        decreases lines@.len() - n,
    {
        assert(all[n as int] == lines@[n as int]@);
        match expand_line(defined, &lines[n]) {
            Err(error) => {
                proof {
                    lemma_expanded_fails(defined@, all, n + 1, lines@.len() as int);
                }
                return Err(error);
            },
            Ok(mut more) => {
                let ghost before = line_views(done@);
                let ghost added = line_views(more@);
                let ghost moved = more@;
                let ghost kept = done@;
                done.append(&mut more);
                assert(done@ == kept + moved);
                assert(line_views(done@) =~= before + added);
            },
        }
        n += 1;
    }
    Ok(done)
}

/// Once a line has failed to expand, more lines do not mend it
proof fn lemma_expanded_fails(defined: MacroView, lines: Seq<LineView>, n: int, m: int)
    requires
        0 <= n <= m,
        expanded(defined, lines, n) is Err,
    ensures
        expanded(defined, lines, m) == expanded(defined, lines, n),
    decreases m - n,
{
    if n < m {
        lemma_expanded_fails(defined, lines, n, m - 1);
    }
}

/// Once a macro has failed to expand, more macros do not mend it
proof fn lemma_expanded_all_fails(macros: Seq<MacroView>, lines: Seq<LineView>, k: int, m: int)
    requires
        0 <= k <= m,
        expanded_all(macros, lines, k) is Err,
    ensures
        expanded_all(macros, lines, m) == expanded_all(macros, lines, k),
    decreases m - k,
{
    if k < m {
        lemma_expanded_all_fails(macros, lines, k, m - 1);
    }
}

/// Prepare a source for the two passes: the lines that are left when
/// comments and blank lines are dropped and the macros are expanded
pub fn preprocess(source: &str) -> (out: Result<Vec<String>, Error>)
    ensures
        match out {
            Ok(lines) => preprocessed(source@) == Ok::<Seq<Seq<char>>, ErrorView>(
                Seq::new(lines@.len(), |i: int| lines@[i]@),
            ),
            Err(error) => preprocessed(source@) == Err::<Seq<Seq<char>>, ErrorView>(error@),
        },
{
    let chars = chars_of(source);
    let raw = clean_lines(chars.as_slice());
    let (macros, mut lines) = collect(&raw);
    let ghost start = line_views(lines@);
    let mut k: usize = 0;
    while k < macros.len()
        invariant
            k <= macros@.len(),
            macro_views(macros@) == collected(cleaned(source@), 0).0,
            start == collected(cleaned(source@), 0).1,
            expanded_all(macro_views(macros@), start, k as int) == Ok::<Seq<LineView>, ErrorView>(
                line_views(lines@),
            ),
        decreases macros@.len() - k,
    {
        assert(macro_views(macros@)[k as int] == macros@[k as int]@);
        match expand(&macros[k], &lines) {
            Err(error) => {
                proof {
                    assert(expanded_all(macro_views(macros@), start, k + 1) == Err::<
                        Seq<LineView>,
                        ErrorView,
                    >(error@));
                    lemma_expanded_all_fails(
                        macro_views(macros@),
                        start,
                        k + 1,
                        macros@.len() as int,
                    );
                }
                return Err(error);
            },
            Ok(done) => {
                lines = done;
            },
        }
        k += 1;
    }
    let mut out: Vec<String> = Vec::new();
    let mut i: usize = 0;
    while i < lines.len()
        invariant
            i <= lines@.len(),
            out@.len() == i,
            forall|j: int| 0 <= j < i ==> (#[trigger] out@[j])@ == lines@[j].text@,
        decreases lines@.len() - i,
    {
        let text = string_of(&lines[i].text, 0, lines[i].text.len());
        assert(text@ =~= lines@[i as int].text@);
        out.push(text);
        i += 1;
    }
    proof {
        let done = line_views(lines@);
        assert(Seq::new(out@.len(), |i: int| out@[i]@) =~= Seq::new(
            done.len(),
            |i: int| done[i].text,
        ));
    }
    Ok(out)
}

} // verus!
