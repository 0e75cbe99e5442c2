use novaprox::text::{
    chars_of, decimal_text, digit, find_char, hex_digit, parse_i32, parse_u32, same_text, space,
    split_on, trim,
};

#[test]
fn same_text_compares_characters() {
    assert!(same_text("reality", "reality"));
    assert!(!same_text("reality", "Reality"));
    assert!(!same_text("tls", "tls "));
    assert!(same_text("", ""));
}

#[test]
fn chars_of_keeps_order_and_non_ascii() {
    assert_eq!(chars_of("aé€😀"), vec!['a', 'é', '€', '😀']);
    assert_eq!(chars_of(""), Vec::<char>::new());
}

#[test]
fn find_char_finds_first_at_or_after() {
    let chars = chars_of("a=b=c");
    assert_eq!(find_char(&chars, '=', 0), 1);
    assert_eq!(find_char(&chars, '=', 1), 1);
    assert_eq!(find_char(&chars, '=', 2), 3);
    assert_eq!(find_char(&chars, '=', 4), 5);
    assert_eq!(find_char(&chars, '=', 5), 5);
    assert_eq!(find_char(&chars, 'x', 0), 5);
    assert_eq!(find_char(&chars, '=', 9), 5);
    assert_eq!(find_char(&Vec::new(), '=', 0), 0);
}

#[test]
fn split_on_matches_std_split() {
    for text in ["a,b,c", "", ",", "a,", ",a", "a,,b", "no separator", "é,€"] {
        let expected: Vec<String> = text.split(',').map(str::to_owned).collect();
        assert_eq!(split_on(text, ','), expected, "splitting {text:?}");
    }
}

#[test]
fn decimal_text_matches_std_formatting() {
    for n in [0u64, 1, 9, 10, 11, 99, 100, 443, 8080, 65535, 1_000_000, u64::MAX] {
        assert_eq!(decimal_text(n), n.to_string());
    }
}

#[test]
fn parse_u32_matches_std_parse() {
    let samples = [
        "", "+", "-", "0", "+0", "-0", "7", "+7", "-7", "007", "+007", "4294967295",
        "4294967296", "+4294967295", "99999999999999999999999999", "1 ", " 1", "1_0", "0x10",
        "1.0", "1e3", "++1", "+-1", "１２", "٣", "12a", "a12",
    ];
    for text in samples {
        assert_eq!(parse_u32(text), text.parse::<u32>().ok(), "parsing {text:?}");
    }
}

#[test]
fn parse_i32_matches_std_parse() {
    let samples = [
        "", "+", "-", "0", "+0", "-0", "7", "+7", "-7", "-007", "2147483647", "2147483648",
        "-2147483648", "-2147483649", "+2147483647", "99999999999999999999", "-99999999999999",
        "1 ", " -1", "--1", "-+1", "+-1", "1-", "１", "-a",
    ];
    for text in samples {
        assert_eq!(parse_i32(text), text.parse::<i32>().ok(), "parsing {text:?}");
    }
}

#[test]
fn trim_matches_std_trim() {
    let samples = [
        "", " ", "   ", "abc", " abc", "abc ", "  a b  ", "\t\n abc \r\n", "\u{a0}abc\u{3000}",
        "\u{2003}x\u{2028}", "\u{200b}abc\u{200b}", "a", " a", "\u{85}\u{1680}q\u{205f}\u{202f}",
    ];
    for text in samples {
        assert_eq!(trim(text), text.trim(), "trimming {text:?}");
    }
}

#[test]
fn space_is_unicode_white_space() {
    let mut code = 0u32;
    while code <= 0x10ffff {
        if let Some(c) = char::from_u32(code) {
            assert_eq!(space(c), c.is_whitespace(), "U+{code:04X}");
        }
        code += 1;
    }
}

#[test]
fn digit_classes_match_std() {
    let mut code = 0u32;
    while code <= 0x10ffff {
        if let Some(c) = char::from_u32(code) {
            assert_eq!(hex_digit(c), c.is_ascii_hexdigit(), "U+{code:04X}");
            assert_eq!(digit(c), c.is_ascii_digit(), "U+{code:04X}");
        }
        code += 1;
    }
}
