use rust_telemetry::text::{decimal, hex4, pad_left, signed_decimal, trim};

#[test]
fn decimal_writes_plain_digits() {
    assert_eq!(decimal(0), "0");
    assert_eq!(decimal(7), "7");
    assert_eq!(decimal(10), "10");
    assert_eq!(decimal(1000), "1000");
    assert_eq!(decimal(115_200), "115200");
    assert_eq!(decimal(u64::MAX), "18446744073709551615");
}

#[test]
fn decimal_agrees_with_format() {
    for n in [1u64, 9, 99, 100, 4096, 65535, 1_000_000_007, 9_999_999_999] {
        assert_eq!(decimal(n), format!("{}", n));
    }
}

#[test]
fn signed_decimal_puts_the_sign_in_front() {
    assert_eq!(signed_decimal(0), "0");
    assert_eq!(signed_decimal(512), "512");
    assert_eq!(signed_decimal(-5), "-5");
    assert_eq!(signed_decimal(i32::MIN), "-2147483648");
    assert_eq!(signed_decimal(i32::MAX), "2147483647");
}

#[test]
fn pad_left_right_aligns_short_text() {
    assert_eq!(pad_left("7", 4), "   7");
    assert_eq!(pad_left("-12", 4), " -12");
    assert_eq!(pad_left("1023", 4), "1023");
    assert_eq!(pad_left("123456", 4), "123456");
    assert_eq!(pad_left("", 2), "  ");
    assert_eq!(pad_left("ab", 0), "ab");
}

#[test]
fn pad_left_agrees_with_format() {
    for raw in [0i32, 5, -5, 99, -999, 1023, 12345] {
        assert_eq!(pad_left(&raw.to_string(), 4), format!("{:>4}", raw));
    }
}

#[test]
fn hex4_writes_four_lower_case_digits() {
    assert_eq!(hex4(0), "0000");
    assert_eq!(hex4(0x1a86), "1a86");
    assert_eq!(hex4(0x7523), "7523");
    assert_eq!(hex4(0x2341), "2341");
    assert_eq!(hex4(0xabcd), "abcd");
    assert_eq!(hex4(0xffff), "ffff");
    assert_eq!(hex4(0x00f0), "00f0");
}

#[test]
fn hex4_agrees_with_format() {
    for v in [1u16, 15, 16, 255, 256, 4095, 4096, 40000] {
        assert_eq!(hex4(v), format!("{:04x}", v));
    }
}

#[test]
fn trim_removes_surrounding_white_space() {
    assert_eq!(trim("  {\"raw\": 512}\r\n"), "{\"raw\": 512}");
    assert_eq!(trim("\t x y \n"), "x y");
    assert_eq!(trim("\u{a0}x\u{3000}"), "x");
    assert_eq!(trim("already"), "already");
    assert_eq!(trim("   "), "");
    assert_eq!(trim(""), "");
}

#[test]
fn trim_agrees_with_str_trim() {
    for s in ["\r\n", " a ", "a\u{2003}", "\u{85}b\u{2028}", "x\u{200b}", "  inner  space  "] {
        assert_eq!(trim(s), s.trim());
    }
}

#[test]
fn trim_twice_is_trim_once() {
    for s in ["  a b  ", "\n\n", "x", " \u{a0} y \u{a0} "] {
        let once = trim(s);
        assert_eq!(trim(&once), once);
    }
}

#[test]
fn trim_ignores_a_line_ending() {
    for s in ["{\"raw\":1}", "  x", "", " "] {
        assert_eq!(trim(&format!("{}\r\n", s)), trim(s));
        assert_eq!(trim(&format!("{}\n", s)), trim(s));
    }
}

#[test]
fn trim_removes_exactly_the_white_space_characters() {
    for code in 0u32..0x3100 {
        if let Some(c) = char::from_u32(code) {
            let text = c.to_string();
            assert_eq!(trim(&text).is_empty(), c.is_whitespace(), "U+{:04X}", code);
        }
    }
}
