use chip8vm::disassembler::{decode_instruction, disassemble};

#[test]
fn instructions_are_decoded_by_the_table() {
    let cases: [(u16, &str); 37] = [
        (0x00E0, "CLS"),
        (0x00EE, "RET"),
        (0x0123, "SYS 0x123"),
        (0x1ABC, "JP 0xABC"),
        (0x2005, "CALL 0x005"),
        (0x3A0F, "SE VA, 0x0F"),
        (0x4B10, "SNE VB, 0x10"),
        (0x5120, "SE V1, V2"),
        (0x6C2A, "LD VC, 0x2A"),
        (0x7D01, "ADD VD, 0x01"),
        (0x8120, "LD V1, V2"),
        (0x8121, "OR V1, V2"),
        (0x8122, "AND V1, V2"),
        (0x8123, "XOR V1, V2"),
        (0x8124, "ADD V1, V2"),
        (0x8125, "SUB V1, V2"),
        (0x8126, "SHR V1, V2"),
        (0x8127, "SUBN V1, V2"),
        (0x812E, "SHL V1, V2"),
        (0x9EF0, "SNE VE, VF"),
        (0xA200, "LD I, 0x200"),
        (0xB00F, "JP V0, 0x00F"),
        (0xC3FF, "RND V3, 0xFF"),
        (0xD01F, "DRW V0, V1, 15"),
        (0xD235, "DRW V2, V3, 5"),
        (0xE59E, "SKP V5"),
        (0xE5A1, "SKNP V5"),
        (0xF607, "LD V6, DT"),
        (0xF60A, "LD V6, K"),
        (0xF615, "LD DT, V6"),
        (0xF618, "LD ST, V6"),
        (0xF61E, "ADD I, V6"),
        (0xF629, "LD F, V6"),
        (0xF633, "LD B, V6"),
        (0xF655, "LD [I], V6"),
        (0xF665, "LD V6, [I]"),
        (0x0000, "SYS 0x000"),
    ];
    for (opcode, line) in cases {
        assert_eq!(decode_instruction(opcode), line, "{opcode:04X}");
    }
}

#[test]
fn words_that_are_no_instruction_become_data() {
    for (opcode, line) in [
        (0x5121u16, ".word 0x5121"),
        (0x8128, ".word 0x8128"),
        (0x812F, ".word 0x812F"),
        (0x9001, ".word 0x9001"),
        (0xE000, ".word 0xE000"),
        (0xE19F, ".word 0xE19F"),
        (0xF000, ".word 0xF000"),
        (0xFFFF, ".word 0xFFFF"),
    ] {
        assert_eq!(decode_instruction(opcode), line);
    }
}

#[test]
fn bytes_are_read_as_big_endian_words() {
    assert_eq!(disassemble(vec![]), "");
    assert_eq!(disassemble(vec![0x60, 0x2A, 0x81, 0x00]), "LD V0, 0x2A\nLD V1, V0\n");
    assert_eq!(disassemble(vec![0x12, 0x00]), "JP 0x200\n");
}

#[test]
fn a_trailing_odd_byte_becomes_a_byte_directive() {
    assert_eq!(disassemble(vec![0x0A]), ".byte 0x0A\n");
    assert_eq!(
        disassemble(vec![0x01, 0xCA, 0xFE, 0x68, 0x69]),
        "SYS 0x1CA\n.word 0xFE68\n.byte 0x69\n"
    );
}
