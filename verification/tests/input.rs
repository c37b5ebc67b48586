use chainvm::input::{parse_line, parse_number};
use chainvm::text::{char_is_whitespace, chars_of};

#[test]
fn whitespace_is_what_the_standard_library_calls_whitespace() {
    for code in 0u32..=0x10FFFF {
        if let Some(c) = char::from_u32(code) {
            assert_eq!(char_is_whitespace(c), c.is_whitespace(), "U+{:04X}", code);
        }
    }
}

#[test]
fn chars_of_gives_the_characters() {
    assert_eq!(chars_of(""), Vec::<char>::new());
    assert_eq!(chars_of("a\u{e9}\u{1F600}z"), vec!['a', '\u{e9}', '\u{1F600}', 'z']);
}

#[test]
fn parse_line_reads_integers() {
    assert_eq!(parse_line("0"), Some(0));
    assert_eq!(parse_line("42"), Some(42));
    assert_eq!(parse_line("-42"), Some(-42));
    assert_eq!(parse_line("+42"), Some(42));
    assert_eq!(parse_line("007"), Some(7));
    assert_eq!(parse_line("-0"), Some(0));
    assert_eq!(parse_line("2147483647"), Some(i32::MAX));
    assert_eq!(parse_line("-2147483648"), Some(i32::MIN));
    assert_eq!(parse_line("000000000000000000002147483647"), Some(i32::MAX));
}

#[test]
fn parse_line_trims_whitespace() {
    assert_eq!(parse_line("  12\n"), Some(12));
    assert_eq!(parse_line("\t-3\r\n"), Some(-3));
    assert_eq!(parse_line("\u{a0}\u{3000}7\u{2003}\u{85}"), Some(7));
    assert_eq!(parse_line("\n\n"), None);
    assert_eq!(parse_line("1 2"), None);
    assert_eq!(parse_line("- 2"), None);
}

#[test]
fn parse_line_rejects_what_is_no_integer() {
    for text in [
        "", " ", "+", "-", "+-1", "--1", "1-", "1+1", "abc", "12a", "a12", "1.0", "1e3", "0x1f",
        "2147483648", "-2147483649", "99999999999999999999", "-99999999999999999999",
        "\u{661}\u{662}", "\u{ff11}", "1_000", "1,000",
    ] {
        assert_eq!(parse_line(text), None, "{:?}", text);
    }
}

#[test]
fn parse_line_agrees_with_the_standard_library() {
    let pieces = [
        "", " ", "\n", "\t", "\u{a0}", "+", "-", "0", "1", "9", "12", "00", "2147483647",
        "2147483648", "x", ".", "\u{2028}", "\u{200b}",
    ];
    for a in pieces {
        for b in pieces {
            for c in pieces {
                let text = format!("{}{}{}", a, b, c);
                assert_eq!(parse_line(&text), text.trim().parse::<i32>().ok(), "{:?}", text);
            }
        }
    }
}

#[test]
fn parse_number_does_not_trim() {
    let text: Vec<char> = " 1".chars().collect();
    assert_eq!(parse_number(&text), None);
    let text: Vec<char> = "1 ".chars().collect();
    assert_eq!(parse_number(&text), None);
    let text: Vec<char> = "-15".chars().collect();
    assert_eq!(parse_number(&text), Some(-15));
    assert_eq!(parse_number(&Vec::new()), None);
}
