//! Characters and strings: the few operations on text that the assembler
//! and the disassembler are made of, each with its meaning stated over
//! sequences of characters.

use vstd::prelude::*;

verus! {

/// Whether `c` is white space in the sense of Unicode: a character with the
/// property `White_Space`
pub open spec fn is_whitespace(c: char) -> bool {
    let u = c as u32;
    ||| 0x09 <= u <= 0x0D
    ||| u == 0x20
    ||| u == 0x85
    ||| u == 0xA0
    ||| u == 0x1680
    ||| 0x2000 <= u <= 0x200A
    ||| u == 0x2028
    ||| u == 0x2029
    ||| u == 0x202F
    ||| u == 0x205F
    ||| u == 0x3000
}

/// Whether `c` is white space
pub fn is_space(c: char) -> (space: bool)
    ensures
        space == is_whitespace(c),
{
    let u: u32 = c as u32;
    (0x09 <= u && u <= 0x0D) || u == 0x20 || u == 0x85 || u == 0xA0 || u == 0x1680 || (0x2000 <= u
        && u <= 0x200A) || u == 0x2028 || u == 0x2029 || u == 0x202F || u == 0x205F || u == 0x3000
}

/// The value of `c` as a digit in the given radix, where it is one
pub open spec fn digit_value(c: char, radix: int) -> Option<int> {
    let value = if '0' <= c <= '9' {
        c as int - '0' as int
    } else if 'a' <= c <= 'z' {
        c as int - 'a' as int + 10
    } else if 'A' <= c <= 'Z' {
        c as int - 'A' as int + 10
    } else {
        36
    };
    if value < radix {
        Some(value)
    } else {
        None
    }
}

/// The value of `c` as a digit in the given radix, where it is one
pub fn to_digit(c: char, radix: u8) -> (digit: Option<u8>)
    requires
        radix <= 36,
    ensures
        digit matches Some(d) ==> digit_value(c, radix as int) == Some(d as int),
        digit is None ==> digit_value(c, radix as int) is None,
{
    let value: u32 = if '0' <= c && c <= '9' {
        c as u32 - '0' as u32
    } else if 'a' <= c && c <= 'z' {
        c as u32 - 'a' as u32 + 10
    } else if 'A' <= c && c <= 'Z' {
        c as u32 - 'A' as u32 + 10
    } else {
        36
    };
    if value < radix as u32 {
        Some(value as u8)
    } else {
        None
    }
}

/// The characters of a string
pub fn chars_of(s: &str) -> (chars: Vec<char>)
    ensures
        chars@ == s@,
{
    let mut chars: Vec<char> = Vec::new();
    for c in it: s.chars()
        invariant
            chars@ == it.seq().take(it.index() as int),
            it.seq() == s@,
    {
        chars.push(c);
    }
    chars
}

/// Appends `c` to `text` with `String::push`
#[verifier::external_body]
fn push_char(text: &mut String, c: char)
    ensures
        final(text)@ == old(text)@.push(c),
{
    text.push(c);
}

/// The string made of the characters `chars[from..to]`
pub fn string_of(chars: &Vec<char>, from: usize, to: usize) -> (text: String)
    requires
        from <= to <= chars@.len(),
    ensures
        text@ == chars@.subrange(from as int, to as int),
{
    let mut text = String::new();
    let mut i: usize = from;
    while i < to
        invariant
            from <= i <= to <= chars@.len(),
            text@ == chars@.subrange(from as int, i as int),
        decreases to - i,
    {
        push_char(&mut text, chars[i]);
        assert(chars@.subrange(from as int, i + 1) =~= chars@.subrange(from as int, i as int).push(
            chars@[i as int],
        ));
        i += 1;
    }
    text
}

/// Whether two strings hold the same characters
pub fn str_eq(a: &str, b: &str) -> (equal: bool)
    ensures
        equal == (a@ == b@),
{
    let x = a.as_bytes();
    let y = b.as_bytes();
    proof {
        vstd::utf8::encode_utf8_decode_utf8(a@);
        vstd::utf8::encode_utf8_decode_utf8(b@);
    }
    if x.len() != y.len() {
        return false;
    }
    let mut i: usize = 0;
    while i < x.len()
        invariant
            x@.len() == y@.len(),
            i <= x@.len(),
            x@ == vstd::utf8::encode_utf8(a@),
            y@ == vstd::utf8::encode_utf8(b@),
            forall|j: int| 0 <= j < i ==> x@[j] == y@[j],
        decreases x@.len() - i,
    {
        if x[i] != y[i] {
            assert(x@[i as int] != y@[i as int]);
            return false;
        }
        i += 1;
    }
    assert(x@ =~= y@);
    true
}


// Searching and trimming

/// The index of the first `c` in `s` at or after `from`, or the length of `s` where there is none
pub open spec fn find_char(s: Seq<char>, c: char, from: int) -> int
    decreases s.len() - from,
{
    if from >= s.len() {
        s.len() as int
    } else if s[from] == c {
        from
    } else {
        find_char(s, c, from + 1)
    }
}

/// `find_char` stays between `from` and the end, finds `c` where it stops
/// short of the end, and passes over no `c`
pub proof fn lemma_find_char(s: Seq<char>, c: char, from: int)
    requires
        0 <= from <= s.len(),
    ensures
        from <= find_char(s, c, from) <= s.len(),
        find_char(s, c, from) < s.len() ==> s[find_char(s, c, from)] == c,
        forall|i: int| from <= i < find_char(s, c, from) ==> s[i] != c,
    decreases s.len() - from,
{
    if from < s.len() && s[from] != c {
        lemma_find_char(s, c, from + 1);
    }
}

/// The index of the first `c` in `s` at or after `from`, or the length of `s` where there is none
pub fn find(s: &[char], c: char, from: usize) -> (at: usize)
    requires
        from <= s@.len(),
    ensures
        at == find_char(s@, c, from as int),
        from <= at <= s@.len(),
{
    let mut i: usize = from;
    while i < s.len() && s[i] != c
        invariant
            from <= i <= s@.len(),
            find_char(s@, c, from as int) == find_char(s@, c, i as int),
        decreases s@.len() - i,
    {
        i += 1;
    }
    i
}

/// What a strip takes away: a given character, or with `None` any white space
pub open spec fn strips(c: char, pattern: Option<char>) -> bool {
    match pattern {
        Some(p) => c == p,
        None => is_whitespace(c),
    }
}

/// `s` without the leading characters that the pattern takes away
pub open spec fn strip_start(s: Seq<char>, pattern: Option<char>) -> Seq<char>
    decreases s.len(),
{
    if s.len() > 0 && strips(s[0], pattern) {
        strip_start(s.drop_first(), pattern)
    } else {
        s
    }
}

/// `s` without the trailing characters that the pattern takes away
pub open spec fn strip_end(s: Seq<char>, pattern: Option<char>) -> Seq<char>
    decreases s.len(),
{
    if s.len() > 0 && strips(s.last(), pattern) {
        strip_end(s.drop_last(), pattern)
    } else {
        s
    }
}

/// `s` without leading and trailing white space
pub open spec fn trim(s: Seq<char>) -> Seq<char> {
    strip_end(strip_start(s, None), None)
}

/// `s` without the leading and trailing occurrences of `c`
pub open spec fn trim_matches(s: Seq<char>, c: char) -> Seq<char> {
    strip_end(strip_start(s, Some(c)), Some(c))
}

/// `s` without the trailing occurrences of `c`
pub open spec fn trim_end_matches(s: Seq<char>, c: char) -> Seq<char> {
    strip_end(s, Some(c))
}

/// Leading characters that the pattern takes away can be skipped before the strip
proof fn lemma_strip_start_skip(s: Seq<char>, pattern: Option<char>, i: int)
    requires
        0 <= i <= s.len(),
        forall|j: int| 0 <= j < i ==> strips(s[j], pattern),
    ensures
        strip_start(s, pattern) == strip_start(s.skip(i), pattern),
    decreases i,
{
    if i > 0 {
        lemma_strip_start_skip(s, pattern, i - 1);
        assert(s.skip(i - 1).drop_first() =~= s.skip(i));
    } else {
        assert(s.skip(0) =~= s);
    }
}

/// Trailing characters that the pattern takes away can be dropped before the strip
proof fn lemma_strip_end_take(s: Seq<char>, pattern: Option<char>, i: int)
    requires
        0 <= i <= s.len(),
        forall|j: int| i <= j < s.len() ==> strips(s[j], pattern),
    ensures
        strip_end(s, pattern) == strip_end(s.take(i), pattern),
    decreases s.len() - i,
{
    if i < s.len() {
        lemma_strip_end_take(s, pattern, i + 1);
        assert(s.take(i + 1).drop_last() =~= s.take(i));
    } else {
        assert(s.take(i) =~= s);
    }
}

/// Whether the pattern takes `c` away
fn is_stripped(c: char, pattern: Option<char>) -> (stripped: bool)
    ensures
        stripped == strips(c, pattern),
{
    match pattern {
        Some(p) => c == p,
        None => is_space(c),
    }
}

/// The bounds of what is left of `s` when the characters that the pattern
/// takes away are stripped from its end and, if `leading`, from its start
pub fn strip_bounds(s: &[char], pattern: Option<char>, leading: bool) -> (bounds: (usize, usize))
    ensures
        bounds.0 <= bounds.1 <= s@.len(),
        leading ==> s@.subrange(bounds.0 as int, bounds.1 as int) == strip_end(
            strip_start(s@, pattern),
            pattern,
        ),
        !leading ==> bounds.0 == 0 && s@.subrange(0, bounds.1 as int) == strip_end(s@, pattern),
{
    let mut start: usize = 0;
    while leading && start < s.len() && is_stripped(s[start], pattern)
        invariant
            start <= s@.len(),
            !leading ==> start == 0,
            forall|j: int| 0 <= j < start ==> strips(s@[j], pattern),
        decreases s@.len() - start,
    {
        start += 1;
    }
    let mut end: usize = s.len();
    while end > start && is_stripped(s[end - 1], pattern)
        invariant
            start <= end <= s@.len(),
            forall|j: int| end <= j < s@.len() ==> strips(s@[j], pattern),
        decreases end,
    {
        end -= 1;
    }
    proof {
        let rest = s@.skip(start as int);
        if leading {
            lemma_strip_start_skip(s@, pattern, start as int);
            assert(strip_start(rest, pattern) == rest);
        } else {
            assert(rest =~= s@);
        }
        assert forall|j: int| end - start <= j < rest.len() implies strips(rest[j], pattern) by {
            assert(rest[j] == s@[j + start]);
        }
        lemma_strip_end_take(rest, pattern, end - start);
        assert(rest.take(end - start) =~= s@.subrange(start as int, end as int));
        let kept = s@.subrange(start as int, end as int);
        if kept.len() > 0 {
            assert(kept.last() == s@[end - 1]);
        }
        assert(strip_end(kept, pattern) == kept);
    }
    (start, end)
}

// Numbers

/// The number that the digits `s` write in the given radix, where each is
/// a digit; no digits write zero
pub open spec fn digits_value(s: Seq<char>, radix: int) -> Option<int>
    decreases s.len(),
{
    if s.len() == 0 {
        Some(0)
    } else {
        match (digits_value(s.drop_last(), radix), digit_value(s.last(), radix)) {
            (Some(value), Some(digit)) => Some(value * radix + digit),
            _ => None,
        }
    }
}

/// The 16-bit number that `s` writes in the given radix: an optional `+`,
/// then at least one digit, and a value that fits
pub open spec fn parse_unsigned(s: Seq<char>, radix: int) -> Option<u16> {
    let digits = if s.len() > 0 && s[0] == '+' {
        s.drop_first()
    } else {
        s
    };
    if digits.len() == 0 {
        None
    } else {
        match digits_value(digits, radix) {
            Some(value) if value <= 0xFFFF => Some(value as u16),
            _ => None,
        }
    }
}

/// One character that is no digit spoils the number
proof fn lemma_digits_value_none(s: Seq<char>, radix: int, i: int)
    requires
        0 <= i < s.len(),
        digit_value(s[i], radix) is None,
    ensures
        digits_value(s, radix) is None,
    decreases s.len(),
{
    if i < s.len() - 1 {
        lemma_digits_value_none(s.drop_last(), radix, i);
    }
}

/// Digits never write a negative number, and more digits never write a smaller one
proof fn lemma_digits_value_grows(s: Seq<char>, radix: int)
    requires
        s.len() > 0,
        radix >= 1,
        digits_value(s, radix) is Some,
    ensures
        digits_value(s.drop_last(), radix) is Some,
        0 <= digits_value(s.drop_last(), radix).unwrap() <= digits_value(s, radix).unwrap(),
    decreases s.len(),
{
    let front = s.drop_last();
    if front.len() > 0 {
        lemma_digits_value_grows(front, radix);
    }
    let v = digits_value(front, radix).unwrap();
    assert(v * radix >= v) by (nonlinear_arith)
        requires
            v >= 0,
            radix >= 1,
    ;
}

/// The 16-bit number that `s` writes in the given radix, if it writes one
pub fn parse_radix(s: &[char], radix: u8) -> (number: Option<u16>)
    requires
        2 <= radix <= 36,
    ensures
        number == parse_unsigned(s@, radix as int),
{
    let start: usize = if s.len() > 0 && s[0] == '+' {
        1
    } else {
        0
    };
    if start == s.len() {
        return None;
    }
    let ghost digits = s@.skip(start as int);
    assert(digits =~= if s@.len() > 0 && s@[0] == '+' {
        s@.drop_first()
    } else {
        s@
    });
    let mut value: u32 = 0;
    let mut i: usize = start;
    while i < s.len()
        invariant
            2 <= radix <= 36,
            start <= i <= s@.len(),
            digits == s@.skip(start as int),
            digits.len() > 0,
            digits == if s@.len() > 0 && s@[0] == '+' {
                s@.drop_first()
            } else {
                s@
            },
            digits_value(digits.take(i - start), radix as int) == Some(value as int),
            value <= 0xFFFF,
        decreases s@.len() - i,
    {
        let ghost front = digits.take(i - start);
        let ghost next = digits.take(i - start + 1);
        assert(next.drop_last() =~= front);
        assert(next.last() == s@[i as int]);
        match to_digit(s[i], radix) {
            None => {
                proof {
                    lemma_digits_value_none(digits, radix as int, i - start);
                }
                return None;
            },
            Some(digit) => {
                assert(value * radix <= 0xFFFF * 36) by (nonlinear_arith)
                    requires
                        value <= 0xFFFF,
                        radix <= 36,
                ;
                let wider: u32 = value * radix as u32 + digit as u32;
                assert(digits_value(next, radix as int) == Some(wider as int));
                if wider > 0xFFFF {
                    proof {
                        if digits_value(digits, radix as int) is Some {
                            lemma_digits_value_bound(digits, radix as int, i - start + 1);
                        }
                    }
                    return None;
                }
                value = wider;
            },
        }
        i += 1;
    }
    assert(digits.take(i - start) =~= digits);
    Some(value as u16)
}

/// A number written by some leading digits is no more than the number written by all of them
proof fn lemma_digits_value_bound(s: Seq<char>, radix: int, k: int)
    requires
        0 <= k <= s.len(),
        radix >= 1,
        digits_value(s, radix) is Some,
    ensures
        digits_value(s.take(k), radix) is Some,
        0 <= digits_value(s.take(k), radix).unwrap() <= digits_value(s, radix).unwrap(),
    decreases s.len() - k,
{
    if k == s.len() {
        assert(s.take(k) =~= s);
        if s.len() > 0 {
            lemma_digits_value_grows(s, radix);
        }
    } else {
        lemma_digits_value_grows(s, radix);
        lemma_digits_value_bound(s.drop_last(), radix, k);
        assert(s.drop_last().take(k) =~= s.take(k));
    }
}


// Writing numbers

/// The character that writes the digit `d`: `0` to `9`, then `A` to `Z`
pub open spec fn digit_char(d: int) -> char {
    if d < 10 {
        ((48 + d) as u8) as char
    } else {
        ((55 + d) as u8) as char
    }
}

/// `n` in decimal, without leading zeros
pub open spec fn decimal(n: nat) -> Seq<char>
    decreases n,
{
    if n < 10 {
        seq![digit_char(n as int)]
    } else {
        decimal(n / 10).push(digit_char((n % 10) as int))
    }
}

/// The last `width` digits of `n` in hexadecimal, with `A` to `F` in upper case
pub open spec fn hex(n: nat, width: nat) -> Seq<char>
    decreases width,
{
    if width == 0 {
        seq![]
    } else {
        hex(n / 16, (width - 1) as nat).push(digit_char((n % 16) as int))
    }
}

/// The character that writes the digit `d`
fn digit_to_char(d: u8) -> (c: char)
    requires
        d < 36,
    ensures
        c == digit_char(d as int),
{
    if d < 10 {
        (48 + d) as char
    } else {
        (55 + d) as char
    }
}

/// Appends `n` in decimal to `out`
pub fn push_decimal(out: &mut String, n: usize)
    ensures
        final(out)@ == old(out)@ + decimal(n as nat),
    decreases n,
{
    if n >= 10 {
        push_decimal(out, n / 10);
    }
    push_char(out, digit_to_char((n % 10) as u8));
    assert(final(out)@ =~= old(out)@ + decimal(n as nat));
}

/// Appends the last `width` hexadecimal digits of `n` to `out`
pub fn push_hex(out: &mut String, n: u16, width: u8)
    ensures
        final(out)@ == old(out)@ + hex(n as nat, width as nat),
    decreases width,
{
    if width > 0 {
        push_hex(out, n / 16, width - 1);
        push_char(out, digit_to_char((n % 16) as u8));
    }
    assert(final(out)@ =~= old(out)@ + hex(n as nat, width as nat));
}

// Lengths in bytes

/// The number of bytes of `c` in UTF-8
pub open spec fn char_width(c: char) -> nat {
    let u = c as u32;
    if u < 0x80 {
        1
    } else if u < 0x800 {
        2
    } else if u < 0x1_0000 {
        3
    } else {
        4
    }
}

/// The number of bytes of `s` in UTF-8
pub open spec fn utf8_len(s: Seq<char>) -> nat {
    vstd::utf8::encode_utf8(s).len()
}

/// The encoding of two sequences put together is their encodings put together
pub proof fn lemma_encode_concat(a: Seq<char>, b: Seq<char>)
    ensures
        vstd::utf8::encode_utf8(a + b) == vstd::utf8::encode_utf8(a) + vstd::utf8::encode_utf8(b),
    decreases a.len(),
{
    if a.len() == 0 {
        assert(a + b =~= b);
        assert(vstd::utf8::encode_utf8(a) =~= Seq::<u8>::empty());
    } else {
        assert((a + b).drop_first() =~= a.drop_first() + b);
        lemma_encode_concat(a.drop_first(), b);
    }
    assert(vstd::utf8::encode_utf8(a + b) =~= vstd::utf8::encode_utf8(a) + vstd::utf8::encode_utf8(
        b,
    ));
}

/// One more character makes a sequence longer by the width of that character,
/// and a part of a sequence is no longer than the whole
pub proof fn lemma_utf8_len_step(s: Seq<char>, k: int)
    requires
        0 <= k < s.len(),
    ensures
        utf8_len(s.take(k + 1)) == utf8_len(s.take(k)) + char_width(s[k]),
        utf8_len(s.take(k + 1)) <= utf8_len(s),
{
    vstd::utf8::char_is_scalar(s[k]);
    let one = seq![s[k]];
    assert(one.drop_first() =~= Seq::<char>::empty());
    assert(vstd::utf8::encode_utf8(one.drop_first()) =~= Seq::<u8>::empty());
    assert(vstd::utf8::encode_utf8(one) =~= vstd::utf8::encode_scalar(s[k] as u32));
    assert(s.take(k + 1) =~= s.take(k) + one);
    lemma_encode_concat(s.take(k), one);
    assert(s =~= s.take(k + 1) + s.skip(k + 1));
    lemma_encode_concat(s.take(k + 1), s.skip(k + 1));
}

/// The number of bytes of `c` in UTF-8
pub fn width_of(c: char) -> (width: usize)
    ensures
        width == char_width(c),
{
    let u: u32 = c as u32;
    if u < 0x80 {
        1
    } else if u < 0x800 {
        2
    } else if u < 0x1_0000 {
        3
    } else {
        4
    }
}

// Upper case

/// Whether every character of `s` is an ASCII character
pub open spec fn is_ascii(s: Seq<char>) -> bool {
    forall|i: int| 0 <= i < s.len() ==> (#[trigger] s[i] as u32) < 128
}

/// `c` in upper case, where it is an ASCII letter
pub open spec fn ascii_upper(c: char) -> char {
    if 'a' <= c <= 'z' {
        ((c as u8 - 32) as u8) as char
    } else {
        c
    }
}

/// What `str::to_uppercase` makes of a string: its upper case by the rules of Unicode
pub uninterp spec fn unicode_uppercase(s: Seq<char>) -> Seq<char>;

/// A string in upper case: letter by letter where it is all ASCII, by the
/// rules of Unicode where it is not
pub open spec fn uppercase(s: Seq<char>) -> Seq<char> {
    if is_ascii(s) {
        Seq::new(s.len(), |i: int| ascii_upper(s[i]))
    } else {
        unicode_uppercase(s)
    }
}

/// The upper case of `s` as `str::to_uppercase` computes it
#[verifier::external_body]
fn unicode_upper(s: &str) -> (upper: String)
    ensures
        upper@ == unicode_uppercase(s@),
{
    s.to_uppercase()
}

/// `s` in upper case
pub fn to_upper(s: &str) -> (upper: String)
    ensures
        upper@ == uppercase(s@),
{
    let chars = chars_of(s);
    let mut upper = String::new();
    let mut i: usize = 0;
    while i < chars.len()
        invariant
            i <= chars@.len(),
            chars@ == s@,
            is_ascii(chars@.take(i as int)),
            upper@ == Seq::new(i as nat, |j: int| ascii_upper(chars@[j])),
        decreases chars@.len() - i,
    {
        let c: char = chars[i];
        if c as u32 >= 128 {
            assert(!is_ascii(s@));
            return unicode_upper(s);
        }
        let up: char = if 'a' <= c && c <= 'z' {
            (c as u8 - 32) as char
        } else {
            c
        };
        push_char(&mut upper, up);
        assert(upper@ =~= Seq::new((i + 1) as nat, |j: int| ascii_upper(chars@[j])));
        assert forall|j: int| 0 <= j < i + 1 implies (#[trigger] chars@.take(i + 1)[j] as u32)
            < 128 by {
            if j < i {
                assert(chars@.take(i as int)[j] == chars@[j]);
            }
        }
        i += 1;
    }
    assert(chars@.take(i as int) =~= chars@);
    upper
}


// Widths in bits

/// The largest number that fits in `bits` bits, and in sixteen
pub open spec fn max_for_bits(bits: nat) -> nat {
    if bits >= 16 {
        0xFFFF
    } else {
        (vstd::arithmetic::power2::pow2(bits) - 1) as nat
    }
}

/// The largest number that fits in `bits` bits, and in sixteen
pub fn max_value(bits: usize) -> (max: u16)
    ensures
        max == max_for_bits(bits as nat),
{
    proof {
        vstd::arithmetic::power2::lemma2_to64();
    }
    if bits >= 16 {
        0xFFFF
    } else {
        let mut max: u16 = 0;
        let mut i: usize = 0;
        while i < bits
            invariant
                i <= bits < 16,
                max == vstd::arithmetic::power2::pow2(i as nat) - 1,
            decreases bits - i,
        {
            proof {
                vstd::arithmetic::power2::lemma2_to64();
                vstd::arithmetic::power2::lemma_pow2_unfold((i + 1) as nat);
            }
            max = 2 * max + 1;
            i += 1;
        }
        max
    }
}

} // verus!
