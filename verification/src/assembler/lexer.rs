//! Splits a line of source into tokens.
//!
//! A token is a quoted string, from one double quote to the next, or a
//! bare word, a run of characters that are neither commas nor white space.
//! Commas and white space between tokens separate them. A double quote that
//! is never closed starts a bare word. Inside a string a backslash is a
//! character like any other, so a string cannot hold a double quote.

use crate::assembler::statement::{Statement, StatementView, TokenSpan};
use crate::text::{
    chars_of, find, find_char, is_space, is_whitespace, lemma_find_char, lemma_utf8_len_step,
    utf8_len, width_of,
};
use vstd::prelude::*;
use vstd::string::StrSliceExecFns;

verus! {

/// Whether `c` separates tokens
pub open spec fn is_separator(c: char) -> bool {
    c == ',' || is_whitespace(c)
}

/// The end of the run of characters from `from` on that are no separators
pub open spec fn bareword_end(s: Seq<char>, from: int) -> int
    decreases s.len() - from,
{
    if from >= s.len() || is_separator(s[from]) {
        from
    } else {
        bareword_end(s, from + 1)
    }
}

/// The end of the token that starts at `from`, where no separator stands:
/// just after the closing quote where a quoted string starts there, and
/// at the end of the bare word otherwise
pub open spec fn token_end(s: Seq<char>, from: int) -> int {
    if s[from] == '"' && find_char(s, '"', from + 1) < s.len() {
        find_char(s, '"', from + 1) + 1
    } else {
        bareword_end(s, from)
    }
}

/// A token ends after it starts, and inside the line
pub proof fn lemma_token_end(s: Seq<char>, from: int)
    requires
        0 <= from < s.len(),
        !is_separator(s[from]),
    ensures
        from < token_end(s, from) <= s.len(),
{
    lemma_find_char(s, '"', from + 1);
    lemma_bareword_end(s, from + 1);
}

proof fn lemma_bareword_end(s: Seq<char>, from: int)
    requires
        0 <= from <= s.len(),
    ensures
        from <= bareword_end(s, from) <= s.len(),
    decreases s.len() - from,
{
    if from < s.len() && !is_separator(s[from]) {
        lemma_bareword_end(s, from + 1);
    }
}

/// The tokens of `s` from `from` on, each as the indices of its first
/// character and of the character after its last. A token ends after it
/// starts and inside the text, so the third case never applies: it makes
/// the definition well founded.
pub open spec fn tokens(s: Seq<char>, from: int) -> Seq<(int, int)>
    decreases s.len() - from,
{
    if from < 0 || from >= s.len() {
        seq![]
    } else if is_separator(s[from]) {
        tokens(s, from + 1)
    } else if token_end(s, from) <= from || token_end(s, from) > s.len() {
        seq![]
    } else {
        seq![(from, token_end(s, from))] + tokens(s, token_end(s, from))
    }
}

/// The span in bytes of the characters `from..to` of a line
pub open spec fn byte_span(line: Seq<char>, from: int, to: int) -> TokenSpan {
    TokenSpan { start: utf8_len(line.take(from)) as usize, end: utf8_len(line.take(to)) as usize }
}

/// The statement that a line is lexed into: the first token is the
/// mnemonic and the others are the arguments. A line without a token is
/// no statement.
pub open spec fn lexed(line: Seq<char>, line_number: usize) -> Option<StatementView> {
    let found = tokens(line, 0);
    if found.len() == 0 {
        None
    } else {
        Some(
            StatementView {
                instruction: line.subrange(found[0].0, found[0].1),
                instruction_span: byte_span(line, found[0].0, found[0].1),
                arguments: Seq::new(
                    (found.len() - 1) as nat,
                    |i: int| line.subrange(found[i + 1].0, found[i + 1].1),
                ),
                argument_spans: Seq::new(
                    (found.len() - 1) as nat,
                    |i: int| byte_span(line, found[i + 1].0, found[i + 1].1),
                ),
                line_number,
                line,
            },
        )
    }
}

/// Whether `c` separates tokens
fn separates(c: char) -> (separator: bool)
    ensures
        separator == is_separator(c),
{
    c == ',' || is_space(c)
}

/// The tokens of a line, each as the indices of its first character and
/// of the character after its last
pub fn lex(line: &[char]) -> (found: Vec<(usize, usize)>)
    ensures
        found@.len() == tokens(line@, 0).len(),
        forall|k: int|
            0 <= k < found@.len() ==> (#[trigger] found@[k]).0 == tokens(line@, 0)[k].0
                && found@[k].1 == tokens(line@, 0)[k].1,
        forall|k: int|
            0 <= k < found@.len() ==> (#[trigger] found@[k]).0 < found@[k].1 <= line@.len(),
{
    let ghost s = line@;
    let mut found: Vec<(usize, usize)> = Vec::new();
    let mut i: usize = 0;
    while i < line.len()
        invariant
            s == line@,
            i <= s.len(),
            Seq::new(found@.len(), |k: int| (found@[k].0 as int, found@[k].1 as int)) + tokens(
                s,
                i as int,
            ) == tokens(s, 0),
            forall|k: int| 0 <= k < found@.len() ==> (#[trigger] found@[k]).0 < found@[k].1 <= s.len(),
        decreases s.len() - i,
    {
        if separates(line[i]) {
            i += 1;
        } else {
            proof {
                lemma_token_end(s, i as int);
            }
            let mut end: usize = i;
            let mut quoted: bool = false;
            if line[i] == '"' {
                let quote: usize = find(line, '"', i + 1);
                if quote < line.len() {
                    end = quote + 1;
                    quoted = true;
                }
            }
            if !quoted {
                while end < line.len() && !separates(line[end])
                    invariant
                        s == line@,
                        i <= end <= s.len(),
                        bareword_end(s, i as int) == bareword_end(s, end as int),
                    decreases s.len() - end,
                {
                    end += 1;
                }
            }
            let ghost before = Seq::new(
                found@.len(),
                |k: int| (found@[k].0 as int, found@[k].1 as int),
            );
            found.push((i, end));
            proof {
                let after = Seq::new(
                    found@.len(),
                    |k: int| (found@[k].0 as int, found@[k].1 as int),
                );
                assert(after =~= before + seq![(i as int, end as int)]);
                assert(after + tokens(s, end as int) =~= before + (seq![(i as int, end as int)]
                    + tokens(s, end as int)));
            }
            i = end;
        }
    }
    proof {
        let all = Seq::new(found@.len(), |k: int| (found@[k].0 as int, found@[k].1 as int));
        assert(all + tokens(s, i as int) =~= all);
        assert forall|k: int| 0 <= k < found@.len() implies (#[trigger] found@[k]).0 == tokens(
            s,
            0,
        )[k].0 && found@[k].1 == tokens(s, 0)[k].1 by {
            assert(all[k] == tokens(s, 0)[k]);
        }
    }
    found
}

/// The offset in bytes of each character of a line, and of its end
fn byte_offsets(line: &str, chars: &Vec<char>) -> (offsets: Vec<usize>)
    requires
        chars@ == line@,
    ensures
        offsets@.len() == chars@.len() + 1,
        forall|k: int| 0 <= k <= chars@.len() ==> offsets@[k] == utf8_len(chars@.take(k)),
{
    let total: usize = line.as_bytes().len();
    let mut offsets: Vec<usize> = Vec::new();
    offsets.push(0);
    assert(chars@.take(0) =~= Seq::<char>::empty());
    assert(vstd::utf8::encode_utf8(Seq::<char>::empty()) =~= Seq::<u8>::empty());
    let mut k: usize = 0;
    while k < chars.len()
        invariant
            chars@ == line@,
            total == utf8_len(chars@),
            k <= chars@.len(),
            offsets@.len() == k + 1,
            forall|j: int| 0 <= j <= k ==> offsets@[j] == utf8_len(chars@.take(j)),
        decreases chars@.len() - k,
    {
        proof {
            lemma_utf8_len_step(chars@, k as int);
        }
        let next: usize = offsets[k] + width_of(chars[k]);
        offsets.push(next);
        k += 1;
    }
    offsets
}

/// Lex a line into a statement: the first token is the instruction and
/// the others are its arguments. A line without a token is no statement.
pub fn lex_statement<'a>(line: &'a str, line_number: usize) -> (statement: Option<Statement<'a>>)
    ensures
        match statement {
            Some(s) => lexed(line@, line_number) == Some(s@) && s@.wf(),
            None => lexed(line@, line_number) is None,
        },
{
    let chars = chars_of(line);
    let found = lex(chars.as_slice());
    if found.len() == 0 {
        return None;
    }
    let offsets = byte_offsets(line, &chars);
    let ghost all = tokens(line@, 0);
    let mut arguments: Vec<&'a str> = Vec::new();
    let mut argument_spans: Vec<TokenSpan> = Vec::new();
    let mut k: usize = 1;
    while k < found.len()
        invariant
            chars@ == line@,
            all == tokens(line@, 0),
            1 <= k <= found@.len(),
            found@.len() == all.len(),
            forall|j: int| 0 <= j < found@.len() ==> (#[trigger] found@[j]).0 == all[j].0 && found@[j].1 == all[j].1,
            forall|j: int| 0 <= j < found@.len() ==> (#[trigger] found@[j]).0 < found@[j].1 <= chars@.len(),
            offsets@.len() == chars@.len() + 1,
            forall|j: int| 0 <= j <= chars@.len() ==> offsets@[j] == utf8_len(chars@.take(j)),
            arguments@.len() == k - 1,
            argument_spans@.len() == k - 1,
            forall|j: int| 0 <= j < k - 1 ==> (#[trigger] arguments@[j])@ == line@.subrange(all[j + 1].0, all[j + 1].1),
            forall|j: int| 0 <= j < k - 1 ==> #[trigger] argument_spans@[j] == byte_span(line@, all[j + 1].0, all[j + 1].1),
        decreases found@.len() - k,
    {
        let (from, to) = found[k];
        arguments.push(line.substring_char(from, to));
        argument_spans.push(TokenSpan::new(offsets[from], offsets[to]));
        k += 1;
    }
    let (from, to) = found[0];
    let statement = Statement::new(
        line.substring_char(from, to),
        TokenSpan::new(offsets[from], offsets[to]),
        arguments,
        argument_spans,
        line_number,
        line,
    );
    proof {
        let expected = lexed(line@, line_number).unwrap();
        assert(statement@.arguments =~= expected.arguments);
        assert(statement@.argument_spans =~= expected.argument_spans);
    }
    Some(statement)
}

} // verus!
