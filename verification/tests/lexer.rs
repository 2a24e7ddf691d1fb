use chip8vm::assembler::lexer::{lex, lex_statement};
use regex::Regex;

/// The regular expression of the grammar
fn grammar() -> Regex {
    Regex::new(r#""[^"]*"|[^,\s]+"#).unwrap()
}

/// The tokens of a line as the regular expression of the grammar finds them
fn matches(re: &Regex, line: &str) -> Vec<(usize, usize, String)> {
    re.find_iter(line).map(|m| (m.start(), m.end(), m.as_str().to_string())).collect()
}

/// The tokens of a line as the lexer finds them
fn tokens(line: &str) -> Vec<(usize, usize, String)> {
    match lex_statement(line, 1) {
        None => Vec::new(),
        Some(statement) => {
            let span = statement.instruction_span();
            let mut found =
                vec![(span.start(), span.end(), statement.instruction().to_string())];
            for index in 0..statement.n_arguments() {
                let argument = statement.argument(index).unwrap();
                let start = match found.last() {
                    Some(last) => last.1 + line[last.1..].find(argument).unwrap(),
                    None => 0,
                };
                found.push((start, start + argument.len(), argument.to_string()));
            }
            found
        }
    }
}

fn agree(re: &Regex, line: &str) {
    let expected = matches(re, line);
    assert_eq!(tokens(line), expected, "{line:?}");
    let chars: Vec<char> = line.chars().collect();
    let offsets: Vec<usize> = line.char_indices().map(|(at, _)| at).chain([line.len()]).collect();
    let spans: Vec<(usize, usize)> =
        lex(&chars).into_iter().map(|(from, to)| (offsets[from], offsets[to])).collect();
    assert_eq!(spans, expected.iter().map(|m| (m.0, m.1)).collect::<Vec<_>>(), "{line:?}");
}

#[test]
fn lexer_agrees_with_the_regular_expression_on_chosen_lines() {
    let re = grammar();
    for line in [
        "",
        " ",
        ",",
        "CLS",
        "  CLS  ",
        "LD V0, 0x2A",
        "LD V0,0x2A",
        "LD  V0 ,, 0x2A,",
        "DRW V0, V1, 5",
        ".text \"hello, world\"",
        ".text \"a\" \"b\"",
        ".text \"a\"\"b\"",
        ".text \"\"",
        ".text \"unclosed, string",
        ".text un\"closed, str\"ing",
        "x\"y z\"w",
        "\"\"\"",
        "\" \" \"",
        "a\tb\u{a0}c\u{2003}d\u{3000}e\u{85}f\u{200b}g",
        "caf\u{e9}, \u{1f600} \"\u{e9} \u{1f600}\"",
        "label:",
        "a,b,c",
        "\u{feff}CLS",
        "a\rb\nc\u{b}d\u{c}e",
    ] {
        agree(&re, line);
    }
}

#[test]
fn lexer_agrees_with_the_regular_expression_on_many_lines() {
    let alphabet: Vec<char> = "ab1V, \t\"\"\".;:[\u{e9}\u{a0}\u{2028}\u{1f600}".chars().collect();
    let re = grammar();
    let mut state: u64 = 0x2545_F491_4F6C_DD1D;
    for _ in 0..20000 {
        let mut line = String::new();
        state = state.wrapping_mul(6364136223846793005).wrapping_add(1442695040888963407);
        let length = (state >> 59) as usize;
        for _ in 0..length {
            state = state.wrapping_mul(6364136223846793005).wrapping_add(1442695040888963407);
            line.push(alphabet[(state >> 33) as usize % alphabet.len()]);
        }
        let expected = matches(&re, &line);
        let chars: Vec<char> = line.chars().collect();
        let offsets: Vec<usize> =
            line.char_indices().map(|(at, _)| at).chain([line.len()]).collect();
        let spans: Vec<(usize, usize)> =
            lex(&chars).into_iter().map(|(from, to)| (offsets[from], offsets[to])).collect();
        assert_eq!(spans, expected.iter().map(|m| (m.0, m.1)).collect::<Vec<_>>(), "{line:?}");
        match lex_statement(&line, 1) {
            None => assert!(expected.is_empty(), "{line:?}"),
            Some(statement) => {
                assert_eq!(statement.instruction(), expected[0].2, "{line:?}");
                assert_eq!(statement.instruction_span().start(), expected[0].0, "{line:?}");
                assert_eq!(statement.instruction_span().end(), expected[0].1, "{line:?}");
                assert_eq!(statement.n_arguments(), expected.len() - 1, "{line:?}");
                for index in 1..expected.len() {
                    assert_eq!(statement.argument(index - 1).unwrap(), expected[index].2);
                }
            }
        }
    }
}
