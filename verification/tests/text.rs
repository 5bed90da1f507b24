use expr_jit::ast::{Decimal, Val};
use expr_jit::listing::{make_bare_line, make_line};
use expr_jit::number::{read_digits, read_float, read_int};
use expr_jit::render::{decimal_to_text, signed_text, unsigned_text};
use expr_jit::text::{char_is_whitespace, char_width};

#[test]
fn white_space_is_what_unicode_says() {
    for code in 0..=0x10ffffu32 {
        if let Some(c) = char::from_u32(code) {
            assert_eq!(char_is_whitespace(c), c.is_whitespace(), "U+{:04X}", code);
        }
    }
}

#[test]
fn width_is_the_length_of_the_encoding() {
    for code in 0..=0x10ffffu32 {
        if let Some(c) = char::from_u32(code) {
            assert_eq!(char_width(c), c.len_utf8(), "U+{:04X}", code);
        }
    }
    assert_eq!(char_width('a'), 1);
    assert_eq!(char_width('\u{e9}'), 2);
    assert_eq!(char_width('\u{20ac}'), 3);
    assert_eq!(char_width('\u{1f600}'), 4);
}

#[test]
fn integers_are_written_in_decimal() {
    for v in [0u128, 1, 9, 10, 11, 99, 100, 12345, u64::MAX as u128, u128::MAX] {
        assert_eq!(unsigned_text(v), v.to_string());
    }
    for v in [0i64, 1, -1, 9, -9, 10, -10, 1234567890, i64::MAX, i64::MIN, i64::MIN + 1] {
        assert_eq!(signed_text(v), v.to_string());
    }
    assert_eq!(unsigned_text(340282366920938463463374607431768211455), "340282366920938463463374607431768211455");
}

#[test]
fn short_fractions_are_written_as_floating_point_writes_them() {
    for (text, negative, mantissa, scale) in [
        ("10.1", false, 101u128, 1usize),
        ("0.1", false, 1, 1),
        ("-1", true, 10, 1),
        ("40", false, 400, 1),
        ("0.5", false, 5, 1),
        ("123.456", false, 123456, 3),
        ("-0.000001", true, 1, 6),
        ("7", false, 7, 0),
        ("-0", true, 0, 3),
        ("0", false, 0, 0),
        ("12345678.9", false, 123456789, 1),
    ] {
        let d = Decimal { negative, mantissa, scale };
        assert_eq!(decimal_to_text(&d), text);
        let float: f64 = text.parse().unwrap();
        assert_eq!(decimal_to_text(&d), format!("{}", float));
    }
}

#[test]
fn digits_are_counted() {
    let d = read_digits(b"0012,340").unwrap();
    assert_eq!((d.mantissa, d.digits, d.separators, d.fraction), (12340, 7, 1, 3));
    let d = read_digits(b"1.2.3").unwrap();
    assert_eq!((d.mantissa, d.digits, d.separators, d.fraction), (123, 3, 2, 1));
    let d = read_digits(b"").unwrap();
    assert_eq!((d.mantissa, d.digits, d.separators, d.fraction), (0, 0, 0, 0));
    let d = read_digits(b"5.").unwrap();
    assert_eq!((d.mantissa, d.digits, d.separators, d.fraction), (5, 1, 1, 0));
    assert!(read_digits(b"12a").is_none());
    assert!(read_digits(b"-1").is_none());
    assert!(read_digits(b"340282366920938463463374607431768211455").is_some());
    assert!(read_digits(b"340282366920938463463374607431768211456").is_none());
    assert!(read_digits(b"3402823669209384634633746074317682114550").is_none());
}

#[test]
fn integers_are_read_as_the_standard_library_reads_them() {
    for text in ["0", "7", "007", "13", "123123", "9223372036854775807", "9223372036854775808", "99999999999999999999"] {
        let expected = text.parse::<i64>().ok().map(Val::Int);
        assert_eq!(read_int(text.as_bytes(), false), expected, "{}", text);
    }
    assert_eq!(read_int(b"13", true), Some(Val::Int(-13)));
    assert_eq!(read_int(b"0", true), Some(Val::Int(0)));
    assert_eq!(read_int(b"", false), None);
    assert_eq!(read_int(b"1.5", false), None);
    assert_eq!(read_int(b"1,5", false), None);
    assert_eq!(read_int(b"12x", false), None);
}

#[test]
fn fractions_are_read_exactly() {
    let fraction = |negative, mantissa, scale| Some(Val::Float(Decimal { negative, mantissa, scale }));
    assert_eq!(read_float(b"10,1", false), fraction(false, 101, 1));
    assert_eq!(read_float(b"10.1", true), fraction(true, 101, 1));
    assert_eq!(read_float(b"0.10", false), fraction(false, 10, 2));
    assert_eq!(read_float(b"5.", false), fraction(false, 5, 0));
    assert_eq!(read_float(b".5", false), fraction(false, 5, 1));
    assert_eq!(read_float(b"15", false), None);
    assert_eq!(read_float(b".", false), None);
    assert_eq!(read_float(b"1.2.3", false), None);
    assert_eq!(read_float(b"", false), None);
    assert_eq!(read_float(b"1.5e3", false), None);
}

#[test]
fn lines_of_a_listing() {
    assert_eq!(make_line("addi", "rax", "rcx"), "addi rax, rcx\n");
    assert_eq!(make_line("", "", ""), " , \n");
    assert_eq!(make_bare_line("ret"), "ret\n");
}
