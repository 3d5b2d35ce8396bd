use video_saver::number::{decimal_string, parse_decimal};
use video_saver::text::{chars_of, is_whitespace};

#[test]
fn parse_plain_numbers() {
    assert_eq!(parse_decimal("0"), Some(0));
    assert_eq!(parse_decimal("7"), Some(7));
    assert_eq!(parse_decimal("42"), Some(42));
    assert_eq!(parse_decimal("0042"), Some(42));
    assert_eq!(parse_decimal("1234567890"), Some(1234567890));
}

#[test]
fn parse_signed_numbers() {
    assert_eq!(parse_decimal("+42"), Some(42));
    assert_eq!(parse_decimal("-42"), Some(-42));
    assert_eq!(parse_decimal("-0"), Some(0));
    assert_eq!(parse_decimal("+0"), Some(0));
}

#[test]
fn parse_at_the_limits() {
    assert_eq!(parse_decimal("2147483647"), Some(i32::MAX));
    assert_eq!(parse_decimal("+2147483647"), Some(i32::MAX));
    assert_eq!(parse_decimal("-2147483648"), Some(i32::MIN));
    assert_eq!(parse_decimal("2147483648"), None);
    assert_eq!(parse_decimal("-2147483649"), None);
    assert_eq!(parse_decimal("21474836470"), None);
    assert_eq!(parse_decimal("-21474836480"), None);
    assert_eq!(parse_decimal("000000000000000000002147483647"), Some(i32::MAX));
}

#[test]
fn parse_turns_down_other_shapes() {
    assert_eq!(parse_decimal(""), None);
    assert_eq!(parse_decimal("+"), None);
    assert_eq!(parse_decimal("-"), None);
    assert_eq!(parse_decimal("+-1"), None);
    assert_eq!(parse_decimal("--1"), None);
    assert_eq!(parse_decimal("1-"), None);
    assert_eq!(parse_decimal(" 1"), None);
    assert_eq!(parse_decimal("1 "), None);
    assert_eq!(parse_decimal("1_0"), None);
    assert_eq!(parse_decimal("0x10"), None);
    assert_eq!(parse_decimal("1.0"), None);
    assert_eq!(parse_decimal("abc"), None);
    assert_eq!(parse_decimal("\u{0661}"), None);
    assert_eq!(parse_decimal("99999999999999999999x"), None);
}

#[test]
fn parse_agrees_with_the_standard_library() {
    let texts = [
        "", "0", "-0", "+0", "9", "10", "-10", "+10", "2147483647", "2147483648", "-2147483648",
        "-2147483649", "4294967296", "00", "+", "-", "1e3", "١٢", " 5", "5 ", "+-5", "5+",
        "12345678901234567890",
    ];
    for text in texts {
        assert_eq!(parse_decimal(text), text.parse::<i32>().ok(), "{:?}", text);
    }
    let mut n: i64 = -2147483648;
    while n <= 2147483647 {
        let text = n.to_string();
        assert_eq!(parse_decimal(&text), Some(n as i32));
        n += 7_654_321;
    }
}

#[test]
fn decimal_of_small_and_great_numbers() {
    assert_eq!(decimal_string(0), "0");
    assert_eq!(decimal_string(7), "7");
    assert_eq!(decimal_string(9), "9");
    assert_eq!(decimal_string(10), "10");
    assert_eq!(decimal_string(99), "99");
    assert_eq!(decimal_string(100), "100");
    assert_eq!(decimal_string(2147483648), "2147483648");
    assert_eq!(decimal_string(u32::MAX), "4294967295");
}

#[test]
fn decimal_agrees_with_the_standard_library() {
    let mut n: u32 = 0;
    loop {
        assert_eq!(decimal_string(n), n.to_string());
        match n.checked_add(9_876_543) {
            Some(next) => n = next,
            None => break,
        }
    }
}

#[test]
fn decimal_is_read_back() {
    let numbers: [u32; 6] = [0, 1, 10, 101, 65535, 2147483647];
    for n in numbers {
        assert_eq!(parse_decimal(&decimal_string(n)), Some(n as i32));
    }
    assert_eq!(parse_decimal(&decimal_string(2147483648)), None);
}

#[test]
fn white_space_is_what_the_standard_library_says() {
    let mut code: u32 = 0;
    while code <= 0x10FFFF {
        if let Some(c) = char::from_u32(code) {
            assert_eq!(is_whitespace(c), c.is_whitespace(), "U+{:04X}", code);
        }
        code += 1;
    }
}

#[test]
fn white_space_examples() {
    assert!(is_whitespace(' '));
    assert!(is_whitespace('\t'));
    assert!(is_whitespace('\n'));
    assert!(is_whitespace('\u{a0}'));
    assert!(is_whitespace('\u{3000}'));
    assert!(!is_whitespace('a'));
    assert!(!is_whitespace('0'));
    assert!(!is_whitespace('-'));
    assert!(!is_whitespace('\u{200b}'));
}

#[test]
fn chars_of_text() {
    assert_eq!(chars_of(""), Vec::<char>::new());
    assert_eq!(chars_of("a-1"), vec!['a', '-', '1']);
    assert_eq!(chars_of("vid\u{e9}o\u{1F3AC}"), vec!['v', 'i', 'd', '\u{e9}', 'o', '\u{1F3AC}']);
}
