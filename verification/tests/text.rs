use rbasic::text::{
    chars_of, is_digit, is_letter, is_whitespace, parse_decimal, parse_integer, push_decimal,
    push_signed_decimal, same_chars, spells, width_of,
};

#[test]
fn whitespace_is_as_std_has_it() {
    let mut code: u32 = 0;
    while code <= 0x10FFFF {
        if let Some(c) = char::from_u32(code) {
            assert_eq!(is_whitespace(c), c.is_whitespace(), "{:x}", code);
            assert_eq!(width_of(c) as usize, c.len_utf8(), "{:x}", code);
            assert_eq!(is_digit(c), c.is_ascii_digit(), "{:x}", code);
            assert_eq!(is_letter(c), c.is_ascii_alphabetic(), "{:x}", code);
        }
        code += 1;
    }
}

#[test]
fn decimal_numerals_are_read() {
    let chars = chars_of("x0042y");
    assert_eq!(parse_decimal(&chars, 1, 5, u32::MAX), Some(42));
    assert_eq!(parse_decimal(&chars, 1, 5, 42), Some(42));
    assert_eq!(parse_decimal(&chars, 1, 5, 41), None);
    assert_eq!(parse_decimal(&chars, 1, 1, u32::MAX), None);
    assert_eq!(parse_decimal(&chars, 0, 5, u32::MAX), None);
    assert_eq!(parse_decimal(&chars, 1, 6, u32::MAX), None);
    let chars = chars_of("4294967295");
    assert_eq!(parse_decimal(&chars, 0, 10, u32::MAX), Some(u32::MAX));
    let chars = chars_of("4294967296");
    assert_eq!(parse_decimal(&chars, 0, 10, u32::MAX), None);
    let chars = chars_of("99999999999999999999999999");
    assert_eq!(parse_decimal(&chars, 0, 26, u32::MAX), None);
}

#[test]
fn integers_are_read_as_std_reads_them() {
    let cases = [
        "0", "7", "-7", "+7", "007", "-0", "2147483647", "2147483648", "-2147483648",
        "-2147483649", "", "+", "-", "--1", "+-1", "1-", " 1", "1 ", "0x10", "1e3", "१२",
    ];
    for case in cases.iter() {
        assert_eq!(parse_integer(&chars_of(case)), case.parse::<i32>().ok(), "{:?}", case);
    }
}

#[test]
fn numbers_are_written_in_decimal() {
    let mut out = String::from("n=");
    push_decimal(&mut out, 0);
    push_decimal(&mut out, 9);
    push_decimal(&mut out, 10);
    push_decimal(&mut out, u64::MAX);
    assert_eq!(out, "n=091018446744073709551615");
    for n in [0, 1, -1, 9, -10, 12345, i32::MAX, i32::MIN] {
        let mut out = String::new();
        push_signed_decimal(&mut out, n);
        assert_eq!(out, n.to_string());
    }
}

#[test]
fn characters_are_compared() {
    assert_eq!(chars_of("aé\u{1F600}"), vec!['a', 'é', '\u{1F600}']);
    assert!(same_chars(&chars_of("abc"), &chars_of("abc")));
    assert!(!same_chars(&chars_of("abc"), &chars_of("abd")));
    assert!(!same_chars(&chars_of("abc"), &chars_of("ab")));
    assert!(spells(&chars_of("GOTO"), "GOTO"));
    assert!(!spells(&chars_of("GOTO"), "GOT0"));
    assert!(spells(&chars_of(""), ""));
}
