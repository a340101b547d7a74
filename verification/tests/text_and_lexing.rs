use rusty_panda::lexing::{integer_to_text, parse_integer, split, trim, white_space};
use rusty_panda::text::{chars_of, compare_text, same_text, to_ascii_lower, Position};

#[test]
fn chars_of_gives_every_character() {
    assert_eq!(chars_of("aé日"), vec!['a', 'é', '日']);
    assert_eq!(chars_of(""), Vec::<char>::new());
}

#[test]
fn compare_text_is_lexicographic() {
    assert_eq!(compare_text("a", "b"), Position::Before);
    assert_eq!(compare_text("b", "a"), Position::After);
    assert_eq!(compare_text("ab", "ab"), Position::Same);
    assert_eq!(compare_text("ab", "abc"), Position::Before);
    assert_eq!(compare_text("", "a"), Position::Before);
    assert_eq!(compare_text("Z", "a"), Position::Before);
}

#[test]
fn same_text_compares_characters() {
    assert!(same_text("x", "x"));
    assert!(!same_text("x", "X"));
    assert!(!same_text("x", "xy"));
    assert!(same_text("", ""));
}

#[test]
fn lower_case_touches_only_ascii_capitals() {
    assert_eq!(to_ascii_lower("PARQUET"), "parquet");
    assert_eq!(to_ascii_lower("Json"), "json");
    assert_eq!(to_ascii_lower("cSv1_É"), "csv1_É");
    assert_eq!(to_ascii_lower(""), "");
    for s in ["AZaz@[`{", "ÀÉ", "MiXeD.Case"] {
        assert_eq!(to_ascii_lower(s), s.to_ascii_lowercase());
    }
}

#[test]
fn split_cuts_at_every_separator() {
    assert_eq!(split("1;2;3", ';'), vec!["1", "2", "3"]);
    assert_eq!(split("", ';'), vec![""]);
    assert_eq!(split(";", ';'), vec!["", ""]);
    assert_eq!(split("a;;b;", ';'), vec!["a", "", "b", ""]);
    assert_eq!(split("no separator", ';'), vec!["no separator"]);
    for s in ["", ";", "a", "a;b", ";a;", "1.5; 2.5 ;3", ";;;"] {
        let expected: Vec<String> = s.split(';').map(|t| t.to_string()).collect();
        assert_eq!(split(s, ';'), expected);
    }
}

#[test]
fn trim_takes_white_space_off_both_ends() {
    assert_eq!(trim("  1.5\t"), "1.5");
    assert_eq!(trim("a b"), "a b");
    assert_eq!(trim("   "), "");
    assert_eq!(trim(""), "");
    assert_eq!(trim("\u{a0}x\u{3000}"), "x");
    for s in [" a ", "\n\r\t x y \u{2003}", "x", "\u{85}z\u{2028}", "\u{200b}k"] {
        assert_eq!(trim(s), s.trim());
    }
}

#[test]
fn white_space_is_what_the_standard_library_calls_so() {
    for code in 0u32..0x3100 {
        if let Some(c) = char::from_u32(code) {
            assert_eq!(white_space(c), c.is_whitespace(), "U+{:04X}", code);
        }
    }
}

#[test]
fn parse_integer_reads_decimal_text() {
    assert_eq!(parse_integer("0"), Some(0));
    assert_eq!(parse_integer("42"), Some(42));
    assert_eq!(parse_integer("-42"), Some(-42));
    assert_eq!(parse_integer("+42"), Some(42));
    assert_eq!(parse_integer("007"), Some(7));
    assert_eq!(parse_integer("9223372036854775807"), Some(i64::MAX));
    assert_eq!(parse_integer("-9223372036854775808"), Some(i64::MIN));
    assert_eq!(parse_integer("9223372036854775808"), None);
    assert_eq!(parse_integer("-9223372036854775809"), None);
    assert_eq!(parse_integer("99999999999999999999999999999999999999999"), None);
    assert_eq!(parse_integer(""), None);
    assert_eq!(parse_integer("-"), None);
    assert_eq!(parse_integer("+"), None);
    assert_eq!(parse_integer("1.5"), None);
    assert_eq!(parse_integer(" 1"), None);
    assert_eq!(parse_integer("1 "), None);
    assert_eq!(parse_integer("--1"), None);
    assert_eq!(parse_integer("1e3"), None);
    assert_eq!(parse_integer("١٢"), None);
}

#[test]
fn parse_integer_agrees_with_the_standard_library() {
    let texts = [
        "0", "-0", "+0", "12", "-12", "+12", "", "+", "-", "a", "1a", "a1", "1_000", "0x10",
        "9223372036854775807", "9223372036854775808", "-9223372036854775808",
        "-9223372036854775809", "00000000000000000000000000001", "18446744073709551616",
        "1.0", "true", " 5", "5\n",
    ];
    for t in texts {
        assert_eq!(parse_integer(t), t.parse::<i64>().ok(), "{:?}", t);
    }
}

#[test]
fn integer_to_text_writes_decimal_text() {
    assert_eq!(integer_to_text(0), "0");
    assert_eq!(integer_to_text(7), "7");
    assert_eq!(integer_to_text(10), "10");
    assert_eq!(integer_to_text(-1), "-1");
    assert_eq!(integer_to_text(1234567890), "1234567890");
    assert_eq!(integer_to_text(i64::MAX), "9223372036854775807");
    assert_eq!(integer_to_text(i64::MIN), "-9223372036854775808");
    for i in [-1000i64, -999, -101, -100, -99, -11, -10, -9, 9, 10, 11, 99, 100, 101, 999, 1000] {
        assert_eq!(integer_to_text(i), i.to_string());
        assert_eq!(parse_integer(&integer_to_text(i)), Some(i));
    }
}
