use rusty_man_computer::text::chars_of;
use rusty_man_computer::text::code_of;
use rusty_man_computer::text::decimal_string;
use rusty_man_computer::text::is_whitespace_char;
use rusty_man_computer::text::parse_i16;
use rusty_man_computer::text::push_decimal;
use rusty_man_computer::text::split_lines;
use rusty_man_computer::text::split_whitespace;

#[test]
fn whitespace_is_what_the_standard_library_calls_whitespace() {
    for code in 0u32..=0x10ffff {
        if let Some(c) = char::from_u32(code) {
            assert_eq!(is_whitespace_char(c), c.is_whitespace(), "U+{:04X}", code);
            assert_eq!(code_of(c), code);
        }
    }
}

#[test]
fn decimal_string_is_the_usual_decimal_form() {
    assert_eq!(decimal_string(0), "0");
    assert_eq!(decimal_string(-1), "-1");
    assert_eq!(decimal_string(1000), "1000");
    assert_eq!(decimal_string(i64::MAX), "9223372036854775807");
    assert_eq!(decimal_string(i64::MIN), "-9223372036854775808");
    for v in -33000..33000 {
        assert_eq!(decimal_string(v), format!("{}", v));
    }
    let mut text = String::from("n=");
    push_decimal(&mut text, 4096);
    assert_eq!(text, "n=4096");
    push_decimal(&mut text, u64::MAX);
    assert_eq!(text, "n=409618446744073709551615");
}

#[test]
fn parse_i16_reads_what_the_standard_library_reads() {
    let samples = [
        "", "0", "-0", "+0", "7", "+7", "-7", "007", "-007", "32767", "32768", "-32768", "-32769",
        "+32767", "+32768", "99999", "-99999", "000000000000000000000000012", "1000", "-1000",
        "999", "-999", "-", "+", "--1", "+-1", "-+1", "1-", "1+", "1 ", " 1", "1a", "a1", "a",
        "0x10", "1_000", "1.0", "١٢", "１２", "12\n", "4294967296", "18446744073709551616",
        "65536", "-65536", "65535", "327670", "32766",
    ];
    for text in samples {
        assert_eq!(parse_i16(text), text.parse::<i16>().ok(), "{:?}", text);
    }
    for v in i16::MIN..=i16::MAX {
        assert_eq!(parse_i16(&format!("{}", v)), Some(v));
    }
    assert_eq!(parse_i16("12"), Some(12));
    assert_eq!(parse_i16("-345"), Some(-345));
    assert_eq!(parse_i16("40000"), None);
}

#[test]
fn split_lines_gives_the_lines_between_line_feeds() {
    let samples = [
        "", "\n", "a", "a\n", "a\nb", "a\n\n", "\n\na", "a\n\nb\n", "\n\n\n", "one two\nthree",
        " a \n\tb\t\n",
    ];
    for text in samples {
        let expected: Vec<String> = text.lines().map(String::from).collect();
        assert_eq!(split_lines(text), expected, "{:?}", text);
    }
    assert_eq!(split_lines("a\n\nb\n"), vec!["a", "", "b"]);
    assert_eq!(split_lines("a\r\nb"), vec!["a\r", "b"]);
}

#[test]
fn split_whitespace_gives_the_words() {
    let samples = [
        "", " ", "a", " a", "a ", " a ", "a b", "a  b", "\ta\t\tb\t", "a\r", "loop LDA 5 // x",
        "a\u{a0}b", "a\u{3000}b\u{2003}c", "\u{85}", "a\u{200b}b", "  //  comment ",
        "x\u{b}y\u{c}z", "a\nb",
    ];
    for text in samples {
        let expected: Vec<String> = text.split_whitespace().map(String::from).collect();
        assert_eq!(split_whitespace(text), expected, "{:?}", text);
    }
    assert_eq!(split_whitespace("  loop\tLDA  5 "), vec!["loop", "LDA", "5"]);
}

#[test]
fn chars_of_gives_the_characters() {
    assert_eq!(chars_of("aé\n"), vec!['a', 'é', '\n']);
    assert!(chars_of("").is_empty());
}
