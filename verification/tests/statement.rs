use chip8vm::assembler::lexer::lex_statement;
use chip8vm::assembler::preprocessor::preprocess;
use chip8vm::assembler::statement::{Statement, SymbolTable, TokenSpan};
use chip8vm::assembler::{underline_spans, Error};

fn statement<'a>(line: &'a str) -> Statement<'a> {
    lex_statement(line, 1).unwrap()
}

#[test]
fn token_span_keeps_its_ends() {
    let span = TokenSpan::new(3, 9);
    assert_eq!(span.start(), 3);
    assert_eq!(span.end(), 9);
    assert_eq!(span, TokenSpan { start: 3, end: 9 });
}

#[test]
fn statement_gives_back_what_it_was_made_of() {
    let s = Statement::new(
        "LD",
        TokenSpan::new(0, 2),
        vec!["V0", "1"],
        vec![TokenSpan::new(3, 5), TokenSpan::new(7, 8)],
        4,
        "LD V0, 1",
    );
    assert_eq!(s.instruction(), "LD");
    assert_eq!(s.instruction_span(), TokenSpan::new(0, 2));
    assert_eq!(s.n_arguments(), 2);
    assert_eq!(s.line_number(), 4);
    assert_eq!(s.line(), "LD V0, 1");
    assert_eq!(s.argument(0).unwrap(), "V0");
    assert_eq!(s.argument(1).unwrap(), "1");
    assert!(matches!(
        s.argument(2),
        Err(Error::InvalidArgumentIndex { requested_index: 2, n_arguments: 2 })
    ));
    let copy = s.clone();
    assert_eq!(copy.argument(1).unwrap(), "1");
    assert_eq!(copy.line(), "LD V0, 1");
}

#[test]
fn lines_are_lexed_into_tokens() {
    let s = statement("DRW V0,V1 ,  5");
    assert_eq!(s.instruction(), "DRW");
    assert_eq!(s.instruction_span(), TokenSpan::new(0, 3));
    assert_eq!(s.n_arguments(), 3);
    assert_eq!(s.argument(0).unwrap(), "V0");
    assert_eq!(s.argument(1).unwrap(), "V1");
    assert_eq!(s.argument(2).unwrap(), "5");
    let s = statement(".text \"a b, c\"x \"open");
    assert_eq!(s.n_arguments(), 3);
    assert_eq!(s.argument(0).unwrap(), "\"a b, c\"");
    assert_eq!(s.argument(1).unwrap(), "x");
    assert_eq!(s.argument(2).unwrap(), "\"open");
    let s = statement("ab\"cd ef\"");
    assert_eq!(s.instruction(), "ab\"cd");
    assert_eq!(s.argument(0).unwrap(), "ef\"");
    let s = statement("a\u{a0}b\u{3000}c");
    assert_eq!(s.instruction(), "a");
    assert_eq!(s.argument(0).unwrap(), "b");
    assert_eq!(s.argument(1).unwrap(), "c");
    assert!(lex_statement("", 1).is_none());
    assert!(lex_statement(" , ,\t", 1).is_none());
}

#[test]
fn parse_number_checks_the_width() {
    let s = statement("X 15 16 0x10 0b1111 65535 abc");
    assert_eq!(s.parse_number(0, 4).unwrap(), 15);
    assert!(matches!(
        s.parse_number(1, 4),
        Err(Error::ArgumentOverflow { argument: 16, expected_n_bits: 4, line_number: 1, .. })
    ));
    assert_eq!(s.parse_number(1, 5).unwrap(), 16);
    assert_eq!(s.parse_number(2, 8).unwrap(), 16);
    assert_eq!(s.parse_number(3, 4).unwrap(), 15);
    assert_eq!(s.parse_number(4, 16).unwrap(), 65535);
    assert_eq!(s.parse_number(4, 99).unwrap(), 65535);
    assert!(matches!(s.parse_number(4, 15), Err(Error::ArgumentOverflow { .. })));
    assert!(matches!(s.parse_number(0, 0), Err(Error::ArgumentOverflow { .. })));
    assert!(matches!(s.parse_number(5, 16), Err(Error::InvalidArgument { .. })));
    assert!(matches!(s.parse_number(6, 16), Err(Error::InvalidArgumentIndex { .. })));
    match s.parse_number(1, 4) {
        Err(Error::ArgumentOverflow { argument_span, line, .. }) => {
            assert_eq!(argument_span, TokenSpan::new(5, 7));
            assert_eq!(line, "X 15 16 0x10 0b1111 65535 abc");
        }
        other => panic!("{other:?}"),
    }
}

#[test]
fn parse_register_wants_an_upper_case_v_and_a_hex_digit() {
    let s = statement("X V0 V9 VA Vf VG v1 V V10 1");
    assert_eq!(s.parse_register(0).unwrap(), 0);
    assert_eq!(s.parse_register(1).unwrap(), 9);
    assert_eq!(s.parse_register(2).unwrap(), 10);
    assert_eq!(s.parse_register(3).unwrap(), 15);
    for index in 4..9 {
        assert!(matches!(s.parse_register(index), Err(Error::InvalidArgument { .. })), "{index}");
    }
    assert!(matches!(s.parse_register(9), Err(Error::InvalidArgumentIndex { .. })));
}

#[test]
fn parse_only_two_registers_takes_nothing_else() {
    assert_eq!(statement("OR V1, VF").parse_only_two_registers().unwrap(), (1, 15));
    assert!(matches!(
        statement("OR V1").parse_only_two_registers(),
        Err(Error::InvalidArgumentCount { n_arguments: 1, .. })
    ));
    assert!(matches!(
        statement("OR V1, 2").parse_only_two_registers(),
        Err(Error::InvalidArgument { .. })
    ));
}

#[test]
fn labels_are_moved_up_by_0x200() {
    let mut table = SymbolTable::new();
    table.insert("loop".to_string(), 6);
    table.insert("far".to_string(), 0xFFFF);
    table.insert("loop".to_string(), 8);
    assert_eq!(table.get("loop"), Some(8));
    assert_eq!(table.get("Loop"), None);
    let s = statement("JP loop far 0x123 0x1234 nope");
    assert_eq!(s.parse_label(0, &table).unwrap(), 0x208);
    assert_eq!(s.parse_label(1, &table).unwrap(), 0xFFFF);
    assert!(matches!(s.parse_label(4, &table), Err(Error::InvalidArgument { .. })));
    assert_eq!(s.parse_addr_or_label(0, &table).unwrap(), 0x208);
    assert_eq!(s.parse_addr_or_label(2, &table).unwrap(), 0x123);
    assert!(matches!(
        s.parse_addr_or_label(3, &table),
        Err(Error::ArgumentOverflow { argument: 0x1234, expected_n_bits: 12, .. })
    ));
    table.insert("0x1234".to_string(), 0);
    assert!(matches!(
        s.parse_addr_or_label(3, &table),
        Err(Error::ArgumentOverflow { argument: 0x1234, expected_n_bits: 12, .. })
    ));
    table.insert("0x123".to_string(), 0);
    assert_eq!(s.parse_addr_or_label(2, &table).unwrap(), 0x123);
    assert!(matches!(s.parse_addr_or_label(4, &table), Err(Error::InvalidArgument { .. })));
    assert!(matches!(s.parse_addr_or_label(5, &table), Err(Error::InvalidArgumentIndex { .. })));
    assert_eq!(s.parse_addr_or_label(1, &table).unwrap(), 0xFFFF);
}

#[test]
fn an_address_for_an_instruction_fits_in_twelve_bits() {
    let mut table = SymbolTable::new();
    table.insert("last".to_string(), 0xDFF);
    table.insert("beyond".to_string(), 0xE00);
    let s = statement("JP last beyond 0xFFF 0x1000 nope");
    assert_eq!(s.parse_address(0, &table).unwrap(), 0xFFF);
    match s.parse_address(1, &table) {
        Err(Error::ArgumentOverflow { argument, argument_span, expected_n_bits, .. }) => {
            assert_eq!((argument, expected_n_bits), (0x1000, 12));
            assert_eq!(argument_span, TokenSpan::new(8, 14));
        }
        other => panic!("{other:?}"),
    }
    assert_eq!(s.parse_address(2, &table).unwrap(), 0xFFF);
    assert!(matches!(
        s.parse_address(3, &table),
        Err(Error::ArgumentOverflow { argument: 0x1000, .. })
    ));
    assert!(matches!(s.parse_address(4, &table), Err(Error::InvalidArgument { .. })));
    assert!(matches!(s.parse_address(5, &table), Err(Error::InvalidArgumentIndex { .. })));
    match s.argument_overflow(0, 77, 3) {
        Error::ArgumentOverflow { argument, argument_span, expected_n_bits, line_number, line } => {
            assert_eq!((argument, expected_n_bits, line_number), (77, 3, 1));
            assert_eq!(argument_span, TokenSpan::new(3, 7));
            assert_eq!(line, "JP last beyond 0xFFF 0x1000 nope");
        }
        other => panic!("{other:?}"),
    }
}

#[test]
fn parse_string_drops_the_quotes_at_the_ends() {
    let s = statement("X \"hi there\" bare \"\"x\"\" \"");
    assert_eq!(s.parse_string(0).unwrap(), "hi there");
    assert_eq!(s.parse_string(1).unwrap(), "bare");
    assert_eq!(s.argument(2).unwrap(), "\"\"");
    assert_eq!(s.parse_string(2).unwrap(), "");
    assert_eq!(s.argument(3).unwrap(), "x\"\"");
    assert_eq!(s.parse_string(3).unwrap(), "x");
    assert_eq!(s.parse_string(4).unwrap(), "");
    assert!(matches!(s.parse_string(5), Err(Error::InvalidArgumentIndex { .. })));
}

#[test]
fn argument_count_errors_point_at_the_extra_arguments() {
    let s = statement("CLS 1, 2");
    assert!(s.assert_n_arguments(2).is_ok());
    match s.assert_n_arguments(1) {
        Err(Error::InvalidArgumentCount {
            instruction,
            n_arguments,
            expected,
            extra_argument_spans,
            line_number,
            line,
        }) => {
            assert_eq!(instruction, "CLS");
            assert_eq!(n_arguments, 2);
            assert_eq!(expected, vec![1]);
            assert_eq!(extra_argument_spans, vec![TokenSpan::new(7, 8)]);
            assert_eq!(line_number, 1);
            assert_eq!(line, "CLS 1, 2");
        }
        other => panic!("{other:?}"),
    }
    match s.invalid_argument_count(2, &[5, 3]) {
        Error::InvalidArgumentCount { expected, extra_argument_spans, .. } => {
            assert_eq!(expected, vec![5, 3]);
            assert!(extra_argument_spans.is_empty());
        }
        other => panic!("{other:?}"),
    }
    match s.invalid_argument_count(7, &[]) {
        Error::InvalidArgumentCount { n_arguments, extra_argument_spans, .. } => {
            assert_eq!(n_arguments, 7);
            assert_eq!(extra_argument_spans.len(), 2);
        }
        other => panic!("{other:?}"),
    }
    match s.invalid_argument(1) {
        Error::InvalidArgument { argument, argument_span, .. } => {
            assert_eq!(argument, "2");
            assert_eq!(argument_span, TokenSpan::new(7, 8));
        }
        other => panic!("{other:?}"),
    }
}

#[test]
fn preprocess_cleans_the_lines() {
    assert_eq!(
        preprocess("  LD V0, 1 ; one\n\n;\n\tCLS\r\n x ;; y").unwrap(),
        vec!["LD V0, 1", "CLS", "x"]
    );
    assert_eq!(preprocess("").unwrap(), Vec::<String>::new());
    assert_eq!(
        preprocess(".macro m a b\n$a$b $ab $a\n.endmacro\nm 1 \"2 3\"\nm x, y").unwrap(),
        vec!["1\"2 3\" 1b 1", "xy xb x"]
    );
}

#[test]
fn underline_marks_the_bytes_of_the_spans() {
    let spans = vec![TokenSpan::new(3, 5), TokenSpan::new(7, 100), TokenSpan::new(4, 4)];
    assert_eq!(underline_spans("LD V0, V1", &spans), "   ^^  ^^");
    assert_eq!(underline_spans("h\u{e9}", &vec![TokenSpan::new(1, 3)]), " ^^");
    assert_eq!(underline_spans("abc", &vec![]), "   ");
    assert_eq!(underline_spans("", &spans), "");
}

#[test]
fn errors_render_as_reports() {
    let error = Error::UnknownInstruction {
        instruction: "FOO".to_string(),
        instruction_span: TokenSpan::new(0, 3),
        line_number: 12,
        line: "FOO V1".to_string(),
    };
    assert_eq!(error.to_string(), "unknown instruction \"FOO\" at line 12\n12\tFOO V1\n\t^^^   ");
    let error = Error::InvalidArgument {
        argument: "V1".to_string(),
        argument_span: TokenSpan::new(3, 5),
        line_number: 1,
        line: "JP V1, 2".to_string(),
    };
    assert_eq!(error.to_string(), "invalid argument \"V1\" at line 1\n1\tJP V1, 2\n\t   ^^   ");
    let error = Error::InvalidArgumentCount {
        instruction: "JP".to_string(),
        n_arguments: 0,
        expected: vec![1, 2],
        extra_argument_spans: vec![],
        line_number: 3,
        line: "JP".to_string(),
    };
    assert_eq!(
        error.to_string(),
        "invalid argument count for instruction \"JP\" at line 3: found 0, expected [1, 2]\n3\tJP"
    );
    let error = Error::InvalidArgumentCount {
        instruction: "CLS".to_string(),
        n_arguments: 1,
        expected: vec![],
        extra_argument_spans: vec![TokenSpan::new(4, 5)],
        line_number: 3,
        line: "CLS 1".to_string(),
    };
    assert_eq!(
        error.to_string(),
        "invalid argument count for instruction \"CLS\" at line 3: found 1, expected []\n3\tCLS 1\n\t    ^"
    );
    let error =
        Error::UserError { message: "stop".to_string(), line_number: 100, line: ".error stop".to_string() };
    assert_eq!(error.to_string(), "line 100: stop\n100\t.error stop");
    let error = Error::ReadError { path: "a.asm".to_string() };
    assert_eq!(error.to_string(), "failed to read file a.asm\n");
    let error = Error::ArgumentOverflow {
        argument: 300,
        argument_span: TokenSpan::new(7, 10),
        expected_n_bits: 8,
        line_number: 2,
        line: "LD V0, 300".to_string(),
    };
    assert_eq!(
        error.to_string(),
        "argument overflow at line 2: maximum allowed value 255 (to fit in 8 bits), got 300\n2\tLD V0, 300\n\t       ^^^"
    );
    let error = Error::ArgumentOverflow {
        argument: 65535,
        argument_span: TokenSpan::new(0, 0),
        expected_n_bits: 12,
        line_number: 0,
        line: String::new(),
    };
    assert_eq!(
        error.to_string(),
        "argument overflow at line 0: maximum allowed value 4095 (to fit in 12 bits), got 65535\n0\t\n\t"
    );
    let error = Error::InvalidArgumentIndex { requested_index: 3, n_arguments: 1 };
    assert_eq!(
        error.to_string(),
        "invalid argument index 3 requested; number of arguments: 1. If you see this, this is probably an internal bug in the assembler itself. Please, submit a GitHub issue.\n"
    );
    let error = Error::IncludeError {
        path: "a.asm".to_string(),
        error: Box::new(Error::ReadError { path: "a.asm".to_string() }),
        line_number: 5,
        line: ".include \"a.asm\"".to_string(),
    };
    assert_eq!(
        error.to_string(),
        "in file a.asm included at line 5: failed to read file a.asm\n\n5\t.include \"a.asm\""
    );
}

#[test]
fn a_report_is_its_head_and_its_marks() {
    let errors = vec![
        Error::UnknownInstruction {
            instruction: "FOO".to_string(),
            instruction_span: TokenSpan::new(0, 3),
            line_number: 12,
            line: "FOO V1".to_string(),
        },
        Error::InvalidArgumentCount {
            instruction: "JP".to_string(),
            n_arguments: 0,
            expected: vec![1, 2],
            extra_argument_spans: vec![],
            line_number: 3,
            line: "JP".to_string(),
        },
        Error::InvalidArgumentCount {
            instruction: "CLS".to_string(),
            n_arguments: 1,
            expected: vec![0],
            extra_argument_spans: vec![TokenSpan::new(4, 5)],
            line_number: 3,
            line: "CLS 1".to_string(),
        },
        Error::UserError { message: "stop".to_string(), line_number: 1, line: ".error".to_string() },
        Error::ReadError { path: "a.asm".to_string() },
        Error::InvalidArgumentIndex { requested_index: 3, n_arguments: 1 },
        Error::IncludeError {
            path: "a.asm".to_string(),
            error: Box::new(Error::InvalidArgument {
                argument: "V1".to_string(),
                argument_span: TokenSpan::new(3, 5),
                line_number: 1,
                line: "JP V1, 2".to_string(),
            }),
            line_number: 5,
            line: ".include \"a.asm\"".to_string(),
        },
    ];
    for error in &errors {
        let expected = match error.marks() {
            Some(marks) => format!("{}\n\t{}", error.head(), marks),
            None => error.head(),
        };
        assert_eq!(error.to_string(), expected);
    }
    assert_eq!(errors[0].head(), "unknown instruction \"FOO\" at line 12\n12\tFOO V1");
    assert_eq!(errors[0].marks(), Some("^^^   ".to_string()));
    assert_eq!(errors[1].marks(), None);
    assert_eq!(errors[2].marks(), Some("    ^".to_string()));
    assert_eq!(errors[6].marks(), None);
    assert_eq!(
        errors[6].to_string(),
        "in file a.asm included at line 5: invalid argument \"V1\" at line 1\n1\tJP V1, 2\n\t   ^^   \n5\t.include \"a.asm\""
    );
}
