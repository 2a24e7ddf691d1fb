use chip8vm::text::{
    chars_of, find, is_space, max_value, parse_radix, push_decimal, push_hex, str_eq, string_of,
    strip_bounds, to_digit, to_upper, width_of,
};

#[test]
fn white_space_is_what_unicode_says() {
    for c in ['\t', '\n', '\u{b}', '\u{c}', '\r', ' ', '\u{85}', '\u{a0}', '\u{1680}', '\u{2000}',
        '\u{200a}', '\u{2028}', '\u{2029}', '\u{202f}', '\u{205f}', '\u{3000}']
    {
        assert!(is_space(c), "{:?}", c);
    }
    for c in ['a', '0', ',', '\u{8}', '\u{e}', '\u{200b}', '\u{180e}', '\u{feff}', '\u{2060}'] {
        assert!(!is_space(c), "{:?}", c);
    }
    for code in 0..0x11000u32 {
        if let Some(c) = char::from_u32(code) {
            assert_eq!(is_space(c), c.is_whitespace(), "{code:X}");
        }
    }
}

#[test]
fn digits_in_every_radix() {
    for radix in 2..=36u8 {
        for code in 0..0x250u32 {
            let c = char::from_u32(code).unwrap();
            let expected = c.to_digit(radix as u32).map(|d| d as u8);
            assert_eq!(to_digit(c, radix), expected, "{c:?} in {radix}");
        }
    }
    assert_eq!(to_digit('7', 8), Some(7));
    assert_eq!(to_digit('8', 8), None);
    assert_eq!(to_digit('f', 16), Some(15));
    assert_eq!(to_digit('G', 16), None);
    assert_eq!(to_digit('z', 36), Some(35));
}

#[test]
fn numbers_are_parsed_as_the_standard_library_parses_them() {
    let words = [
        "", "+", "-", "0", "+0", "-0", "007", "65535", "65536", "99999999999999999999", "ffff",
        "FFFF", "10000", "1_000", " 1", "1 ", "++1", "+-1", "12a", "zz", "1111111111111111",
        "10000000000000000", "\u{661}", "0x10",
    ];
    for word in words {
        let chars: Vec<char> = word.chars().collect();
        for radix in [2u8, 8, 10, 16, 36] {
            assert_eq!(
                parse_radix(&chars, radix),
                u16::from_str_radix(word, radix as u32).ok(),
                "{word:?} in {radix}"
            );
        }
    }
}

#[test]
fn strings_and_characters_convert_both_ways() {
    let text = "h\u{e9}llo, w\u{1f600}rld";
    let chars = chars_of(text);
    assert_eq!(chars, text.chars().collect::<Vec<char>>());
    assert_eq!(string_of(&chars, 0, chars.len()), text);
    assert_eq!(string_of(&chars, 1, 4), "\u{e9}ll");
    assert_eq!(string_of(&chars, 3, 3), "");
    assert!(str_eq(text, "h\u{e9}llo, w\u{1f600}rld"));
    assert!(!str_eq(text, "hello"));
    assert!(!str_eq("ab", "abc"));
    assert!(str_eq("", ""));
    assert_eq!(chars.iter().map(|c| width_of(*c)).collect::<Vec<usize>>(), vec![
        1, 2, 1, 1, 1, 1, 1, 1, 4, 1, 1, 1
    ]);
    assert_eq!(width_of('\u{7ff}'), 2);
    assert_eq!(width_of('\u{800}'), 3);
    assert_eq!(width_of('\u{ffff}'), 3);
    assert_eq!(width_of('\u{10000}'), 4);
}

#[test]
fn find_and_strip() {
    let chars: Vec<char> = "  \"a;b\"::  ".chars().collect();
    assert_eq!(find(&chars, ';', 0), 4);
    assert_eq!(find(&chars, ';', 5), chars.len());
    assert_eq!(find(&chars, ' ', 1), 1);
    assert_eq!(find(&chars, 'z', 0), chars.len());
    assert_eq!(find(&chars, ' ', chars.len()), chars.len());
    assert_eq!(strip_bounds(&chars, None, true), (2, 9));
    assert_eq!(strip_bounds(&chars, None, false), (0, 9));
    assert_eq!(strip_bounds(&chars, Some(' '), true), (2, 9));
    assert_eq!(strip_bounds(&chars[2..9], Some(':'), false), (0, 5));
    assert_eq!(strip_bounds(&chars[2..7], Some('"'), true), (1, 4));
    assert_eq!(strip_bounds(&[' ', ' '], None, true), (2, 2));
    assert_eq!(strip_bounds(&[' ', ' '], None, false), (0, 0));
    assert_eq!(strip_bounds(&[], Some('x'), true), (0, 0));
}

#[test]
fn numbers_are_written_in_decimal_and_hexadecimal() {
    let mut out = String::from("n=");
    push_decimal(&mut out, 0);
    out.push(' ');
    push_decimal(&mut out, 9);
    out.push(' ');
    push_decimal(&mut out, 10);
    out.push(' ');
    push_decimal(&mut out, 65535);
    out.push(' ');
    push_decimal(&mut out, usize::MAX);
    assert_eq!(out, format!("n=0 9 10 65535 {}", usize::MAX));
    let mut out = String::new();
    push_hex(&mut out, 0xABC, 3);
    push_hex(&mut out, 0x0F, 2);
    push_hex(&mut out, 0xF, 1);
    push_hex(&mut out, 0x1234, 4);
    push_hex(&mut out, 0x1234, 2);
    push_hex(&mut out, 0x12, 0);
    push_hex(&mut out, 0x12, 6);
    assert_eq!(out, "ABC0FF123434000012");
}

#[test]
fn upper_case_by_letters_and_by_unicode() {
    assert_eq!(to_upper("cls"), "CLS");
    assert_eq!(to_upper(".Byte"), ".BYTE");
    assert_eq!(to_upper("a1[z]{~"), "A1[Z]{~");
    assert_eq!(to_upper(""), "");
    assert_eq!(to_upper("stra\u{df}e"), "STRASSE");
    assert_eq!(to_upper("\u{17f}ys"), "SYS");
    assert_eq!(to_upper("\u{fb01}ll"), "FILL");
}

#[test]
fn widths_in_bits() {
    assert_eq!(max_value(0), 0);
    assert_eq!(max_value(1), 1);
    assert_eq!(max_value(4), 15);
    assert_eq!(max_value(8), 255);
    assert_eq!(max_value(12), 4095);
    assert_eq!(max_value(15), 32767);
    assert_eq!(max_value(16), 65535);
    assert_eq!(max_value(17), 65535);
    assert_eq!(max_value(usize::MAX), 65535);
}
