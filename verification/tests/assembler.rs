use chip8vm::assembler::{
    assemble, assemble_from_file, assemble_with, warnings, Error, SourceFile,
};
use chip8vm::disassembler::disassemble;

fn file(path: &str, text: &str) -> SourceFile {
    SourceFile { path: path.to_string(), text: text.to_string() }
}

#[test]
fn loads_of_a_byte_and_of_a_register() {
    assert_eq!(assemble("LD V0, 0x2A \n LD V1, V0").unwrap(), vec![0x60, 0x2A, 0x81, 0x00]);
}

#[test]
fn label_at_the_origin_resolves_to_0x200() {
    assert_eq!(assemble("start:\n JP start").unwrap(), vec![0x12, 0x00]);
}

#[test]
fn byte_word_and_text_directives() {
    assert_eq!(
        assemble(".byte 0x01\n .word 0xCAFE\n .text \"hi\"").unwrap(),
        vec![0x01, 0xCA, 0xFE, 0x68, 0x69]
    );
}

#[test]
fn every_instruction_of_the_table() {
    let cases: [(&str, [u8; 2]); 35] = [
        ("CLS", [0x00, 0xE0]),
        ("RET", [0x00, 0xEE]),
        ("SYS 0x123", [0x01, 0x23]),
        ("JP 0xABC", [0x1A, 0xBC]),
        ("CALL 291", [0x21, 0x23]),
        ("SE V1, 0x22", [0x31, 0x22]),
        ("SNE V1, 0b101", [0x41, 0x05]),
        ("SE V1, V2", [0x51, 0x20]),
        ("LD VA, 255", [0x6A, 0xFF]),
        ("ADD Vb, 1", [0x7B, 0x01]),
        ("LD V1, V2", [0x81, 0x20]),
        ("OR V1, V2", [0x81, 0x21]),
        ("AND V1, V2", [0x81, 0x22]),
        ("XOR V1, V2", [0x81, 0x23]),
        ("ADD V1, V2", [0x81, 0x24]),
        ("SUB V1, V2", [0x81, 0x25]),
        ("SHR V1, V2", [0x81, 0x26]),
        ("SUBN V1, V2", [0x81, 0x27]),
        ("SHL V1, V2", [0x81, 0x2E]),
        ("SNE VE, VF", [0x9E, 0xF0]),
        ("LD I, 0x200", [0xA2, 0x00]),
        ("JP V0, 0x00F", [0xB0, 0x0F]),
        ("RND V3, 0xFF", [0xC3, 0xFF]),
        ("DRW V0, V1, 15", [0xD0, 0x1F]),
        ("SKP V5", [0xE5, 0x9E]),
        ("SKNP V5", [0xE5, 0xA1]),
        ("LD V6, DT", [0xF6, 0x07]),
        ("LD V6, K", [0xF6, 0x0A]),
        ("LD DT, V6", [0xF6, 0x15]),
        ("LD ST, V6", [0xF6, 0x18]),
        ("ADD I, V6", [0xF6, 0x1E]),
        ("LD F, V6", [0xF6, 0x29]),
        ("LD B, V6", [0xF6, 0x33]),
        ("LD [I], V6", [0xF6, 0x55]),
        ("LD V6, [I]", [0xF6, 0x65]),
    ];
    for (line, code) in cases {
        assert_eq!(assemble(line).unwrap(), code.to_vec(), "{line}");
    }
}

#[test]
fn mnemonics_and_directives_ignore_case() {
    assert_eq!(assemble("cls\nRet\n.Byte 7\n.DB 8").unwrap(), vec![0x00, 0xE0, 0x00, 0xEE, 7, 8]);
    // registers are named with an upper case V, labels keep their case
    assert!(matches!(assemble("ld v0, 1"), Err(Error::InvalidArgument { .. })));
    assert!(matches!(assemble("Loop:\nJP loop"), Err(Error::InvalidArgument { .. })));
    // a mnemonic that only Unicode turns into upper case is one too
    assert_eq!(assemble("cl\u{17F}").unwrap(), vec![0x00, 0xE0]);
}

#[test]
fn comments_blank_lines_and_indentation_are_dropped() {
    let source = "; a program\n\n   CLS ; clear\r\n\t\n;\n  RET;done\n";
    assert_eq!(assemble(source).unwrap(), vec![0x00, 0xE0, 0x00, 0xEE]);
    assert_eq!(assemble("").unwrap(), Vec::<u8>::new());
    assert_eq!(assemble("\n\n;x\n").unwrap(), Vec::<u8>::new());
    // a semicolon starts a comment inside a string too
    assert_eq!(assemble(".text \"a;b\"").unwrap(), vec![b'a']);
}

#[test]
fn forward_and_backward_labels_give_the_same_addresses() {
    let forward = "JP end\nCLS\nend:\nRET";
    let backward = "top:\nCLS\nJP top\nRET";
    assert_eq!(assemble(forward).unwrap(), vec![0x12, 0x04, 0x00, 0xE0, 0x00, 0xEE]);
    assert_eq!(assemble(backward).unwrap(), vec![0x00, 0xE0, 0x12, 0x00, 0x00, 0xEE]);
}

#[test]
fn directives_of_variable_width_move_the_labels() {
    let source = ".space 3\n.fill 2, 0xAB\n.text \"hey\"\nhere:\nJP here\nLD I, here\nCALL here";
    assert_eq!(
        assemble(source).unwrap(),
        vec![0, 0, 0, 0xAB, 0xAB, b'h', b'e', b'y', 0x12, 0x08, 0xA2, 0x08, 0x22, 0x08]
    );
}

#[test]
fn a_label_defined_twice_takes_the_later_address() {
    assert_eq!(assemble("a:\nCLS\na:\nJP a").unwrap(), vec![0x00, 0xE0, 0x12, 0x02]);
    // all the colons at the end of a label line are dropped
    assert_eq!(assemble("b::\nJP b").unwrap(), vec![0x12, 0x00]);
}

#[test]
fn numbers_in_three_radixes() {
    assert_eq!(assemble(".byte 0x1f\n.byte 0b11\n.byte 17\n.byte +5\n.byte 007").unwrap(), vec![
        0x1F, 3, 17, 5, 7
    ]);
    assert_eq!(assemble(".word 65535\n.word 0x0\n.word 0b1111111111111111").unwrap(), vec![
        0xFF, 0xFF, 0, 0, 0xFF, 0xFF
    ]);
    for bad in [".byte 0X1F", ".byte -1", ".byte 1_0", ".byte 0x", ".byte +", ".byte 0b2", ".byte 12a"] {
        assert!(matches!(assemble(bad), Err(Error::InvalidArgument { .. })), "{bad}");
    }
}

#[test]
fn a_literal_too_wide_for_its_field_overflows() {
    for (line, value, bits) in [
        (".byte 256", 256u16, 8usize),
        ("LD V0, 0x100", 0x100, 8),
        ("SE V0, 300", 300, 8),
        ("SNE V0, 300", 300, 8),
        ("ADD V0, 300", 300, 8),
        ("RND V0, 256", 256, 8),
        ("DRW V0, V1, 16", 16, 4),
        (".fill 1, 256", 256, 8),
    ] {
        match assemble(line) {
            Err(Error::ArgumentOverflow { argument, expected_n_bits, line_number, .. }) => {
                assert_eq!((argument, expected_n_bits, line_number), (value, bits, 1), "{line}");
            }
            other => panic!("{line}: {other:?}"),
        }
    }
    // what does not fit in sixteen bits is no number at all
    assert!(matches!(assemble(".word 65536"), Err(Error::InvalidArgument { .. })));
    assert_eq!(assemble("JP 0xFFF").unwrap(), vec![0x1F, 0xFF]);
}

#[test]
fn an_address_too_wide_for_twelve_bits_overflows() {
    for (line, index) in [
        ("SYS 0x1000", 0usize),
        ("JP 0x1000", 0),
        ("CALL 4096", 0),
        ("LD I, 0x1000", 1),
        ("JP V0, 0x1000", 1),
        ("JP V1, 0xFFFF", 1),
    ] {
        match assemble(line) {
            Err(Error::ArgumentOverflow { argument, expected_n_bits, argument_span, .. }) => {
                assert!(argument > 0xFFF, "{line}");
                assert_eq!(expected_n_bits, 12, "{line}");
                assert_eq!(argument_span.end(), line.len(), "{line}");
                assert_eq!(line[..argument_span.start()].contains(','), index == 1, "{line}");
            }
            other => panic!("{line}: {other:?}"),
        }
    }
    // a label that is spelt like the number does not stand in for it
    match assemble("0x1000:\nCLS\nJP 0x1000") {
        Err(Error::ArgumentOverflow { argument: 0x1000, expected_n_bits: 12, line_number: 3, .. }) => {}
        other => panic!("{other:?}"),
    }
    // a number that fits goes before a label of its spelling
    assert_eq!(assemble("CLS\n0x300:\nJP 0x300").unwrap(), vec![0x00, 0xE0, 0x13, 0x00]);
    // what is no number is a label
    assert!(matches!(assemble("JP 0x10000"), Err(Error::InvalidArgument { .. })));
    assert_eq!(assemble("0x10000:\nJP 0x10000").unwrap(), vec![0x12, 0x00]);
}

#[test]
fn a_label_beyond_twelve_bits_overflows_where_it_is_used() {
    // the label stands at 0xE00 in the bytecode, which is 0x1000 in memory
    let source = ".space 3584\nend:\nCLS";
    assert_eq!(assemble(source).unwrap().len(), 3586);
    for line in ["JP end", "CALL end", "SYS end", "LD I, end", "JP V0, end"] {
        let source = format!("{line}\n.space 3582\nend:");
        match assemble(&source) {
            Err(Error::ArgumentOverflow {
                argument: 0x1000,
                expected_n_bits: 12,
                line_number: 1,
                argument_span,
                ..
            }) => assert_eq!(argument_span.end(), line.len()),
            other => panic!("{line}: {other:?}"),
        }
        // one byte less, and the label is the last address
        let source = format!("{line}\n.space 3581\nend:");
        let code = assemble(&source).unwrap();
        assert_eq!((code[0] & 0x0F, code[1]), (0x0F, 0xFF), "{line}");
    }
    // addresses do not wrap: a label beyond sixteen bits stays at the top
    let mut source = String::from("JP far\n");
    for _ in 0..2 {
        source.push_str(".space 65535\n");
    }
    source.push_str("far:");
    assert!(matches!(
        assemble(&source),
        Err(Error::ArgumentOverflow { argument: 0xFFFF, expected_n_bits: 12, .. })
    ));
}

#[test]
fn jp_with_a_register_takes_v0_only() {
    assert_eq!(assemble("JP V0, 0x123").unwrap(), vec![0xB1, 0x23]);
    match assemble("JP V1, 0x123") {
        Err(Error::InvalidArgument { argument, argument_span, .. }) => {
            assert_eq!(argument, "V1");
            assert_eq!((argument_span.start(), argument_span.end()), (3, 5));
        }
        other => panic!("{other:?}"),
    }
    match assemble("JP") {
        Err(Error::InvalidArgumentCount { n_arguments, expected, extra_argument_spans, .. }) => {
            assert_eq!(n_arguments, 0);
            assert_eq!(expected, vec![1, 2]);
            assert!(extra_argument_spans.is_empty());
        }
        other => panic!("{other:?}"),
    }
    match assemble("JP V0, 1, 2, 3") {
        Err(Error::InvalidArgumentCount { n_arguments, expected, extra_argument_spans, .. }) => {
            assert_eq!(n_arguments, 4);
            assert_eq!(expected, vec![1, 2]);
            assert_eq!(extra_argument_spans.len(), 2);
            assert_eq!(extra_argument_spans[0].start(), 10);
            assert_eq!(extra_argument_spans[1].end(), 14);
        }
        other => panic!("{other:?}"),
    }
}

#[test]
fn unknown_instruction_is_reported_with_its_span_and_line() {
    match assemble("CLS\n  FOO V1 ; what\nRET") {
        Err(Error::UnknownInstruction { instruction, instruction_span, line_number, line }) => {
            assert_eq!(instruction, "FOO");
            assert_eq!((instruction_span.start(), instruction_span.end()), (0, 3));
            assert_eq!(line_number, 2);
            assert_eq!(line, "FOO V1");
        }
        other => panic!("{other:?}"),
    }
    // a line of separators holds no instruction
    match assemble(",,") {
        Err(Error::UnknownInstruction { instruction, line, .. }) => {
            assert_eq!(instruction, "");
            assert_eq!(line, ",,");
        }
        other => panic!("{other:?}"),
    }
    // conditionals are no directives
    assert!(matches!(assemble(".if 1"), Err(Error::UnknownInstruction { .. })));
}

#[test]
fn user_error_and_warning() {
    match assemble("CLS\n.error \"stop here\"") {
        Err(Error::UserError { message, line_number, line }) => {
            assert_eq!(message, "stop here");
            assert_eq!(line_number, 2);
            assert_eq!(line, ".error \"stop here\"");
        }
        other => panic!("{other:?}"),
    }
    match assemble(".ERROR") {
        Err(Error::UserError { message, .. }) => assert_eq!(message, "<no message>"),
        other => panic!("{other:?}"),
    }
    assert_eq!(assemble(".warn \"careful\"\nCLS\n.warn").unwrap(), vec![0x00, 0xE0]);
}

#[test]
fn text_takes_the_bytes_of_the_string() {
    assert_eq!(assemble(".ascii \"a b, c\"").unwrap(), b"a b, c".to_vec());
    assert_eq!(assemble(".text \"h\u{e9}\"").unwrap(), vec![b'h', 0xC3, 0xA9]);
    assert_eq!(assemble(".text bare").unwrap(), b"bare".to_vec());
    assert_eq!(assemble(".text \"\"").unwrap(), Vec::<u8>::new());
    assert!(matches!(
        assemble(".text"),
        Err(Error::InvalidArgumentCount { n_arguments: 0, .. })
    ));
    match assemble(".text \"a\" \"b\"") {
        Err(Error::InvalidArgumentCount { n_arguments, expected, extra_argument_spans, .. }) => {
            assert_eq!(n_arguments, 2);
            assert_eq!(expected, vec![1]);
            assert_eq!(extra_argument_spans.len(), 1);
            assert_eq!((extra_argument_spans[0].start(), extra_argument_spans[0].end()), (10, 13));
        }
        other => panic!("{other:?}"),
    }
}

#[test]
fn directives_check_the_number_of_their_arguments() {
    for (line, found, wanted) in [
        (".include", 0usize, vec![1usize]),
        (".include \"a\" \"b\"", 2, vec![1]),
        (".warn \"a\" \"b\"", 2, vec![0, 1]),
        (".error \"a\" \"b\" c", 3, vec![0, 1]),
        (".byte", 0, vec![1]),
        (".word 1 2", 2, vec![1]),
        (".fill 1", 1, vec![2]),
        (".space", 0, vec![1]),
    ] {
        match assemble(line) {
            Err(Error::InvalidArgumentCount { n_arguments, expected, .. }) => {
                assert_eq!((n_arguments, expected), (found, wanted), "{line}");
            }
            other => panic!("{line}: {other:?}"),
        }
    }
}

#[test]
fn spans_count_bytes() {
    match assemble(".text \"h\u{e9}\", V\u{e9}\nCLS") {
        Err(Error::InvalidArgumentCount { extra_argument_spans, .. }) => {
            assert_eq!(extra_argument_spans.len(), 1);
            assert_eq!((extra_argument_spans[0].start(), extra_argument_spans[0].end()), (13, 16));
        }
        other => panic!("{other:?}"),
    }
    match assemble("LD \u{e9}\u{e9}, V1") {
        Err(Error::InvalidArgument { argument, argument_span, .. }) => {
            assert_eq!(argument, "\u{e9}\u{e9}");
            assert_eq!((argument_span.start(), argument_span.end()), (3, 7));
        }
        other => panic!("{other:?}"),
    }
}

#[test]
fn macros_are_expanded_in_place() {
    let source = "\
.macro load reg value
  LD $reg, $value
  ADD $reg, 1
.endmacro
load V1 5
CLS
load V2, 0x10
";
    assert_eq!(
        assemble(source).unwrap(),
        vec![0x61, 0x05, 0x71, 0x01, 0x00, 0xE0, 0x62, 0x10, 0x72, 0x01]
    );
}

#[test]
fn a_macro_without_parameters_and_a_macro_in_a_body() {
    let source = "\
.macro twice
  once
  once
.endmacro
.MACRO once
  CLS
.ENDMACRO
twice
";
    assert_eq!(assemble(source).unwrap(), vec![0x00, 0xE0, 0x00, 0xE0]);
}

#[test]
fn labels_see_the_expanded_text() {
    let source = ".macro pad\n.space 3\n.endmacro\npad\nhere:\nJP here";
    assert_eq!(assemble(source).unwrap(), vec![0, 0, 0, 0x12, 0x03]);
}

#[test]
fn a_macro_call_with_the_wrong_number_of_arguments_is_reported_at_its_line() {
    let source = "; header\n.macro load reg value\nLD $reg, $value\n.endmacro\n\nCLS\n  load V1, 2, 3 ; too many\n";
    match assemble(source) {
        Err(Error::InvalidArgumentCount {
            instruction,
            n_arguments,
            expected,
            extra_argument_spans,
            line_number,
            line,
        }) => {
            assert_eq!(instruction, "load");
            assert_eq!(n_arguments, 3);
            assert_eq!(expected, vec![2]);
            assert_eq!(extra_argument_spans.len(), 1);
            assert_eq!((extra_argument_spans[0].start(), extra_argument_spans[0].end()), (12, 13));
            assert_eq!(line_number, 7);
            assert_eq!(line, "load V1, 2, 3");
        }
        other => panic!("{other:?}"),
    }
}

#[test]
fn a_definition_that_is_not_closed_stays_in_the_text() {
    assert!(matches!(
        assemble(".macro m a\nCLS"),
        Err(Error::UnknownInstruction { line_number: 1, .. })
    ));
    assert!(matches!(
        assemble(".macro m a\n.endmacro\nCLS"),
        Err(Error::UnknownInstruction { line_number: 1, .. })
    ));
}

#[test]
fn included_files_are_assembled_in_place() {
    let files = vec![
        file("lib.asm", "target:\n  RET\n  JP target"),
        file("data.asm", ".byte 1\n.include \"lib.asm\""),
    ];
    let source = "CLS\n.include \"data.asm\"\nend:\nJP end";
    assert_eq!(
        assemble_with(source, &files).unwrap(),
        vec![0x00, 0xE0, 1, 0x00, 0xEE, 0x12, 0x00, 0x12, 0x07]
    );
    assert_eq!(
        assemble_from_file("data.asm", &files).unwrap(),
        vec![1, 0x00, 0xEE, 0x12, 0x00]
    );
}

#[test]
fn a_missing_file_is_a_read_error() {
    match assemble("CLS\n.include \"nowhere.asm\"") {
        Err(Error::IncludeError { path, error, line_number, line }) => {
            assert_eq!(path, "nowhere.asm");
            assert_eq!(line_number, 2);
            assert_eq!(line, ".include \"nowhere.asm\"");
            assert!(matches!(*error, Error::ReadError { ref path } if path == "nowhere.asm"));
        }
        other => panic!("{other:?}"),
    }
    assert!(matches!(
        assemble_from_file("nowhere.asm", &vec![]),
        Err(Error::ReadError { ref path }) if path == "nowhere.asm"
    ));
}

#[test]
fn an_error_in_an_included_file_is_wrapped() {
    let files = vec![file("bad.asm", "CLS\nBOOM")];
    match assemble_with(".include \"bad.asm\"", &files) {
        Err(Error::IncludeError { path, error, .. }) => {
            assert_eq!(path, "bad.asm");
            assert!(matches!(*error, Error::UnknownInstruction { line_number: 2, .. }));
        }
        other => panic!("{other:?}"),
    }
}

#[test]
fn a_cycle_of_includes_is_an_error() {
    let files = vec![
        file("a.asm", "CLS\n.include \"b.asm\""),
        file("b.asm", ".include \"a.asm\""),
    ];
    match assemble_from_file("a.asm", &files) {
        Err(Error::IncludeError { path, error, .. }) => {
            assert_eq!(path, "b.asm");
            match *error {
                Error::IncludeError { path, error, .. } => {
                    assert_eq!(path, "a.asm");
                    assert!(
                        matches!(*error, Error::UserError { ref message, .. } if message == "cyclic include")
                    );
                }
                other => panic!("{other:?}"),
            }
        }
        other => panic!("{other:?}"),
    }
    let files = vec![file("self.asm", ".include \"self.asm\"")];
    assert!(matches!(assemble_from_file("self.asm", &files), Err(Error::IncludeError { .. })));
    // the same file twice, one after the other, is no cycle
    let files = vec![file("one.asm", ".byte 1")];
    assert_eq!(
        assemble_with(".include \"one.asm\"\n.include \"one.asm\"", &files).unwrap(),
        vec![1, 1]
    );
}

#[test]
fn every_well_formed_instruction_emits_two_bytes() {
    for line in ["CLS", "JP 0", "LD V0, V1", "DRW V1, V2, 3", "ADD I, V0", "SKNP VF"] {
        assert_eq!(assemble(line).unwrap().len(), 2, "{line}");
    }
}

#[test]
fn disassembly_assembles_to_the_same_bytes() {
    let source = "\
start:
  LD V0, 0x2A
  LD V1, V0
  SHR V1, V2
  SHL V3, V4
  DRW V0, V1, 5
  JP V0, start
  CALL start
  LD [I], VF
  .word 0x5121
  .word 0xFFFF
  .byte 7
";
    let bytes = assemble(source).unwrap();
    let text = disassemble(bytes.clone());
    assert_eq!(assemble(&text).unwrap(), bytes);
    let mut all: Vec<u8> = Vec::new();
    for opcode in 0..=0xFFFFu16 {
        if opcode % 7 == 0 {
            all.push((opcode >> 8) as u8);
            all.push(opcode as u8);
        }
    }
    all.truncate(3001);
    assert_eq!(assemble(&disassemble(all.clone())).unwrap(), all);
}

#[test]
fn warnings_are_listed_with_their_lines() {
    let found = warnings("CLS\n.warn \"careful\"\n\n; x\n.WARN\nwarn:\n.warning no");
    assert_eq!(found.len(), 2);
    assert_eq!((found[0].message.as_str(), found[0].line_number), ("careful", 2));
    assert_eq!((found[1].message.as_str(), found[1].line_number), ("<no message>", 3));
    assert!(warnings(".macro m a\nCLS\n.endmacro\nm").is_empty());
    assert!(warnings(".warn \"one\" \"two\"").is_empty());
    assert!(warnings("").is_empty());
}

#[test]
fn the_missing_file_is_named_through_the_includes() {
    let files = vec![file("a.asm", ".include \"b.asm\"")];
    let error = assemble_from_file("a.asm", &files).unwrap_err();
    assert_eq!(error.missing_file(), Some("b.asm"));
    let error = assemble_from_file("c.asm", &files).unwrap_err();
    assert_eq!(error.missing_file(), Some("c.asm"));
    assert_eq!(assemble("BOOM").unwrap_err().missing_file(), None);
}

#[test]
fn a_label_line_holds_one_token() {
    assert_eq!(assemble("a:\nb::\nJP a\nJP b").unwrap(), vec![0x12, 0x00, 0x12, 0x00]);
    assert_eq!(assemble("CLS\n  there:  ; here\nJP there").unwrap(), vec![0x00, 0xE0, 0x12, 0x02]);
    // with another token on the line the colon ends an argument, not a label
    for (source, line_number) in [("loop :\nJP loop", 1usize), ("CLS\nJP end:", 2), ("a, b:", 1)] {
        match assemble(source) {
            Err(Error::UnknownInstruction { line_number: at, .. })
            | Err(Error::InvalidArgument { line_number: at, .. }) => {
                assert_eq!(at, line_number, "{source}");
            }
            other => panic!("{source}: {other:?}"),
        }
    }
    match assemble("done:\nJP done:") {
        Err(Error::InvalidArgument { argument, line_number: 2, .. }) => assert_eq!(argument, "done:"),
        other => panic!("{other:?}"),
    }
}
