use oracle_monitor::hex::{hex_to_u64, is_hex_digit, parse_hex, HexError};
use oracle_monitor::text::{characters, cut_text, place, push_numeral, same, strip_0x, to_lower, Place};
use std::num::IntErrorKind;

#[test]
fn hex_with_and_without_prefix() {
    assert_eq!(hex_to_u64("0x10"), Ok(16));
    assert_eq!(hex_to_u64("10"), Ok(16));
    assert_eq!(hex_to_u64("0x0"), Ok(0));
    assert_eq!(hex_to_u64("0xDeadBEEF"), Ok(0xdeadbeef));
    assert_eq!(hex_to_u64("0xffffffffffffffff"), Ok(u64::MAX));
    assert_eq!(hex_to_u64("0x0000000000000000000000001"), Ok(1));
    assert_eq!(hex_to_u64("0x+10"), Ok(16));
}

#[test]
fn hex_errors() {
    assert_eq!(hex_to_u64(""), Err(HexError::Empty));
    assert_eq!(hex_to_u64("0x"), Err(HexError::Empty));
    assert_eq!(hex_to_u64("0X10"), Err(HexError::InvalidDigit));
    assert_eq!(hex_to_u64("0x0x10"), Err(HexError::InvalidDigit));
    assert_eq!(hex_to_u64("+"), Err(HexError::InvalidDigit));
    assert_eq!(hex_to_u64("-1"), Err(HexError::InvalidDigit));
    assert_eq!(hex_to_u64(" 1"), Err(HexError::InvalidDigit));
    assert_eq!(hex_to_u64("1_0"), Err(HexError::InvalidDigit));
    assert_eq!(hex_to_u64("\u{e9}"), Err(HexError::InvalidDigit));
    assert_eq!(hex_to_u64("0x10000000000000000"), Err(HexError::Overflow));
    assert_eq!(hex_to_u64("0x10000000000000000g"), Err(HexError::Overflow));
    assert_eq!(hex_to_u64("0x1000000000000000g0"), Err(HexError::InvalidDigit));
}

#[test]
fn hex_agrees_with_the_standard_library() {
    let samples = [
        "", "+", "-", "++1", "+1", "-1", "0", "g", "fF", "0x1", " 1", "1 ", "ffffffffffffffff", "10000000000000000",
        "fffffffffffffffff", "00000000000000000000ff", "fffffffffffffffffz", "fffffffffffffffz", "zfffffffffffffffff",
        "+ffffffffffffffff", "+0", "1+", "\u{ff11}", "1\u{e9}",
    ];
    for s in samples {
        let expected = match u64::from_str_radix(s, 16) {
            Ok(n) => Ok(n),
            Err(e) => match e.kind() {
                IntErrorKind::Empty => Err(HexError::Empty),
                IntErrorKind::InvalidDigit => Err(HexError::InvalidDigit),
                _ => Err(HexError::Overflow),
            },
        };
        assert_eq!(parse_hex(s), expected, "{}", s);
        if let Err(e) = u64::from_str_radix(s, 16) {
            assert_eq!(expected.unwrap_err().message(), e.to_string());
        }
    }
}

#[test]
fn hex_digits_are_those_of_ascii() {
    for n in 0u32..0x3000 {
        if let Some(c) = char::from_u32(n) {
            assert_eq!(is_hex_digit(c), c.is_ascii_hexdigit());
        }
    }
}

#[test]
fn numerals_are_written_as_the_standard_library_writes_them() {
    for n in [0u64, 1, 9, 10, 15, 16, 99, 100, 255, 256, 12345678901234567890, u64::MAX] {
        let mut decimal = String::from("n=");
        push_numeral(&mut decimal, n, 10);
        assert_eq!(decimal, format!("n={}", n));
        let mut written = String::from("0x");
        push_numeral(&mut written, n, 16);
        assert_eq!(written, format!("0x{:x}", n));
        assert_eq!(hex_to_u64(&written), Ok(n));
    }
}

#[test]
fn small_letters() {
    for s in ["", "0xABCdef", "AZaz@[`{", "\u{c9}\u{212a}K"] {
        assert_eq!(to_lower(s), s.to_ascii_lowercase());
        assert_eq!(to_lower(&to_lower(s)), to_lower(s));
    }
    assert_eq!(to_lower("AbC"), "abc");
}

#[test]
fn texts_are_ordered_by_their_bytes() {
    let samples = ["", "a", "ab", "b", "B", "0x1", "\u{7f}", "\u{80}", "\u{ffff}", "\u{10000}", "a\u{e9}", "z"];
    for a in samples {
        for b in samples {
            let expected = if a < b {
                Place::Before
            } else if a == b {
                Place::Same
            } else {
                Place::After
            };
            assert_eq!(place(a, b), expected);
            assert_eq!(same(a, b), a == b);
        }
    }
}

#[test]
fn cuts_fall_between_characters() {
    let s = "a\u{e9}\u{20ac}b";
    for from in 0..=s.len() {
        for to in from..=s.len() {
            assert_eq!(cut_text(s, from, to), s.get(from..to));
        }
    }
    assert_eq!(cut_text("abcdef", 2, 4), Some("cd"));
}

#[test]
fn prefix_is_stripped_once() {
    assert_eq!(strip_0x("0x0x1"), Some("0x1"));
    assert_eq!(strip_0x("0x"), Some(""));
    assert_eq!(strip_0x("0x\u{e9}"), Some("\u{e9}"));
    assert_eq!(strip_0x("0"), None);
    assert_eq!(strip_0x("0X1"), None);
    assert_eq!(strip_0x(""), None);
}

#[test]
fn characters_are_those_of_the_text() {
    assert_eq!(characters("a\u{e9}b"), vec!['a', '\u{e9}', 'b']);
}
