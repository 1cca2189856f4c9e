use bkmrk_lib::chars::{is_space_char, scan, slice_reads, substring, to_chars, CharClass};
use bkmrk_lib::number::parse_integer;
use bkmrk_lib::text::{
    join_strings, normalized, replace_all, split_trimmed, trim_bounds, trimmed, unique_strings,
};
use bkmrk_lib::utils::{get_date_string, squeeze_whitespaces, try_get_date_string};

fn chars(s: &str) -> Vec<char> {
    s.chars().collect()
}

fn strings(items: &[&str]) -> Vec<String> {
    items.iter().map(|s| s.to_string()).collect()
}

const SAMPLES: [&str; 14] = [
    "",
    " ",
    "My\n   Page",
    "  lead and trail \t\n",
    "a\u{a0}\u{2003}b",
    "\u{3000}x\u{3000}\u{3000}y\u{3000}",
    "no-space",
    "a b  c   d",
    "\r\n\r\n",
    "tab\tseparated\tvalues",
    "\u{85}next\u{2028}line\u{2029}",
    "\u{200b}zero width is no space\u{200b}",
    "x\u{1680}\u{202f}\u{205f}y",
    "\u{feff}bom",
];

#[test]
fn squeezing_makes_one_space_of_a_run() {
    assert_eq!(squeeze_whitespaces("My\n   Page"), "My Page");
    assert_eq!(squeeze_whitespaces("  a \t b  "), " a b ");
    assert_eq!(squeeze_whitespaces("\n"), " ");
    assert_eq!(squeeze_whitespaces(""), "");
    assert_eq!(squeeze_whitespaces("a\u{a0}\u{2003}b"), "a b");
}

#[test]
fn squeezing_agrees_with_the_pattern() {
    let pattern = regex::Regex::new(r"[\s\n]+").unwrap();
    for s in SAMPLES {
        assert_eq!(squeeze_whitespaces(s), pattern.replace_all(s, " ").into_owned(), "{:?}", s);
    }
}

#[test]
fn white_space_is_what_the_language_calls_so() {
    for code in 0..=0x10ffffu32 {
        if let Some(c) = char::from_u32(code) {
            assert_eq!(is_space_char(c), c.is_whitespace(), "U+{:04X}", code);
        }
    }
}

#[test]
fn white_space_is_what_the_pattern_matches() {
    let pattern = regex::Regex::new(r"^\s$").unwrap();
    for code in 0..=0x3100u32 {
        if let Some(c) = char::from_u32(code) {
            assert_eq!(is_space_char(c), pattern.is_match(&c.to_string()), "U+{:04X}", code);
        }
    }
}

#[test]
fn trimming_agrees_with_the_language() {
    for s in SAMPLES {
        let v = chars(s);
        assert_eq!(trimmed(&v, 0, v.len()), s.trim(), "{:?}", s);
        let (a, b) = trim_bounds(&v, 0, v.len());
        assert_eq!(v[a..b].iter().collect::<String>(), s.trim());
    }
    let v = chars("ab  cd  ef");
    assert_eq!(trimmed(&v, 2, 8), "cd");
    assert_eq!(trim_bounds(&v, 2, 8), (4, 6));
    assert_eq!(trim_bounds(&v, 2, 4), (4, 4));
}

#[test]
fn normalizing_trims_and_squeezes() {
    let v = chars("  My\n   Page \t");
    assert_eq!(normalized(&v, 0, v.len()), "My Page");
    let v = chars(" \n ");
    assert_eq!(normalized(&v, 0, v.len()), "");
}

#[test]
fn scanning_stops_at_the_first_other_character() {
    let v = chars("  ab1-c <x> \"q\"");
    assert_eq!(scan(&v, 0, CharClass::Space), 2);
    assert_eq!(scan(&v, 2, CharClass::Name), 5);
    assert_eq!(scan(&v, 2, CharClass::Key), 7);
    assert_eq!(scan(&v, 0, CharClass::Text), 8);
    assert_eq!(scan(&v, 8, CharClass::Declaration), 10);
    assert_eq!(scan(&v, 0, CharClass::Value), 12);
    assert_eq!(scan(&v, 13, CharClass::Value), 14);
    assert_eq!(scan(&v, 15, CharClass::Value), 15);
    assert_eq!(scan(&v, 5, CharClass::Space), 5);
}

#[test]
fn characters_and_strings() {
    assert_eq!(to_chars("h\u{e9}!"), vec!['h', '\u{e9}', '!']);
    let v = chars("h\u{e9}llo");
    assert_eq!(substring(&v, 1, 4), "\u{e9}ll");
    assert_eq!(substring(&v, 2, 2), "");
    assert!(slice_reads(&v, 2, 5, "llo"));
    assert!(!slice_reads(&v, 2, 5, "ll"));
    assert!(!slice_reads(&v, 2, 5, "lla"));
    assert!(slice_reads(&v, 3, 3, ""));
}

#[test]
fn splitting_keeps_empty_fields() {
    assert_eq!(split_trimmed(&chars("a, b ,,c"), ','), strings(&["a", "b", "", "c"]));
    assert_eq!(split_trimmed(&chars(""), ','), strings(&[""]));
    assert_eq!(split_trimmed(&chars(","), ','), strings(&["", ""]));
    assert_eq!(split_trimmed(&chars(" one "), ','), strings(&["one"]));
    for s in ["a,b", ",a,,b,", "  ", "x , y"] {
        let expected: Vec<String> = s.split(',').map(|f| f.trim().to_string()).collect();
        assert_eq!(split_trimmed(&chars(s), ','), expected);
    }
}

#[test]
fn unique_keeps_the_first_of_each() {
    let items = strings(&["b", "", "a", "b", "A", "a", ""]);
    assert_eq!(unique_strings(&items), strings(&["b", "a", "A"]));
    assert_eq!(unique_strings(&Vec::new()), Vec::<String>::new());
}

#[test]
fn joining_puts_the_separator_between() {
    assert_eq!(join_strings(&strings(&["a", "b", "c"]), ", "), "a, b, c");
    assert_eq!(join_strings(&strings(&["a"]), ", "), "a");
    assert_eq!(join_strings(&strings(&[]), ", "), "");
    assert_eq!(join_strings(&strings(&["", ""]), "-"), "-");
}

#[test]
fn replacing_agrees_with_the_language() {
    let cases = [
        ("%n - %l [%t]", "%n", "name"),
        ("aaa", "aa", "b"),
        ("abcabc", "bc", ""),
        ("abc", "", "-"),
        ("", "", "x"),
        ("", "a", "x"),
        ("%%n", "%n", "%n%n"),
        ("h\u{e9}h\u{e9}", "\u{e9}", "e"),
        ("abc", "abcd", "x"),
        ("xabc", "abc", "y"),
    ];
    for (text, from, to) in cases {
        assert_eq!(replace_all(text, from, to), text.replace(from, to), "{:?}", (text, from, to));
    }
    assert_eq!(replace_all("aaa", "aa", "b"), "ba");
}

#[test]
fn integers_read_as_the_language_reads_them() {
    let cases = [
        "0", "7", "+7", "-7", "007", "1600000000", "9223372036854775807", "9223372036854775808",
        "-9223372036854775808", "-9223372036854775809", "99999999999999999999999", "", "+", "-",
        "1 ", " 1", "1_000", "0x10", "12a", "--1", "+-1", "１２", "1.0", "-0",
    ];
    for s in cases {
        assert_eq!(parse_integer(&chars(s)), s.parse::<i64>().ok(), "{:?}", s);
    }
    assert_eq!(parse_integer(&chars("-9223372036854775808")), Some(i64::MIN));
    assert_eq!(parse_integer(&chars("9223372036854775807")), Some(i64::MAX));
    assert_eq!(parse_integer(&chars("42")), Some(42));
}

#[test]
fn dates_are_written_in_utc() {
    assert_eq!(get_date_string(0), "1970-01-01 00:00:00");
    assert_eq!(get_date_string(1600000000), "2020-09-13 12:26:40");
    assert_eq!(get_date_string(-1), "1969-12-31 23:59:59");
    assert_eq!(try_get_date_string(1600000100), Some("2020-09-13 12:28:20".to_string()));
    assert_eq!(try_get_date_string(i64::MAX), None);
    assert_eq!(try_get_date_string(i64::MIN), None);
}
