use zk_deap_harness::text::{
    chars_of, lines_of, parse_u64, parse_usize, push_decimal, split_chars, string_of, tokens_of,
    trimmed,
};

fn cs(s: &str) -> Vec<char> {
    s.chars().collect()
}

fn strs(v: Vec<Vec<char>>) -> Vec<String> {
    v.into_iter().map(|x| x.into_iter().collect()).collect()
}

const SAMPLES: &[&str] = &[
    "",
    "a",
    "  a b \t",
    "\u{3000}x\u{a0}",
    "a\r\nb\n\n",
    "x\r",
    "\r\n",
    "one\ntwo\r\nthree",
    "  12  (a b) R ",
    "\u{2028}tok\u{85}en\u{200b}",
    ",,a,b,",
];

#[test]
fn chars_of_keeps_every_character() {
    assert_eq!(chars_of("añ€\u{1F600}"), vec!['a', 'ñ', '€', '\u{1F600}']);
}

#[test]
fn trimmed_removes_unicode_whitespace_at_both_ends() {
    assert_eq!(trimmed(&cs("  a b \t")), cs("a b"));
    assert_eq!(trimmed(&cs("\u{3000}x\u{a0}")), cs("x"));
    assert_eq!(trimmed(&cs(" \n ")), cs(""));
    for s in SAMPLES {
        assert_eq!(trimmed(&cs(s)), cs(s.trim()), "sample {:?}", s);
    }
}

#[test]
fn split_chars_matches_str_split() {
    assert_eq!(strs(split_chars(&cs("a,,b"), ',')), vec!["a", "", "b"]);
    assert_eq!(strs(split_chars(&cs(""), ',')), vec![""]);
    for s in SAMPLES {
        let want: Vec<String> = s.split(',').map(|x| x.to_string()).collect();
        assert_eq!(strs(split_chars(&cs(s), ',')), want, "sample {:?}", s);
    }
}

#[test]
fn lines_of_matches_str_lines() {
    assert_eq!(strs(lines_of(&cs("a\r\nb\n\n"))), vec!["a", "b", ""]);
    assert_eq!(strs(lines_of(&cs("x\r"))), vec!["x\r"]);
    assert!(lines_of(&cs("")).is_empty());
    for s in SAMPLES {
        let want: Vec<String> = s.lines().map(|x| x.to_string()).collect();
        assert_eq!(strs(lines_of(&cs(s))), want, "sample {:?}", s);
    }
}

#[test]
fn tokens_of_matches_split_whitespace() {
    assert_eq!(strs(tokens_of(&cs("  12  (a b) R "))), vec!["12", "(a", "b)", "R"]);
    for s in SAMPLES {
        let want: Vec<String> = s.split_whitespace().map(|x| x.to_string()).collect();
        assert_eq!(strs(tokens_of(&cs(s))), want, "sample {:?}", s);
    }
}

#[test]
fn parse_u64_matches_str_parse() {
    assert_eq!(parse_u64(&cs("42")), Some(42));
    assert_eq!(parse_u64(&cs("+7")), Some(7));
    assert_eq!(parse_u64(&cs("007")), Some(7));
    assert_eq!(parse_u64(&cs("-1")), None);
    assert_eq!(parse_u64(&cs("+")), None);
    assert_eq!(parse_u64(&cs("")), None);
    assert_eq!(parse_u64(&cs(" 1")), None);
    assert_eq!(parse_u64(&cs("1a")), None);
    assert_eq!(parse_u64(&cs("18446744073709551615")), Some(u64::MAX));
    assert_eq!(parse_u64(&cs("18446744073709551616")), None);
    for s in ["0", "+0", "++1", "-0", "１", "99999999999999999999", "123456789", "4x", "x4"] {
        assert_eq!(parse_u64(&cs(s)), s.parse::<u64>().ok(), "sample {:?}", s);
    }
}

#[test]
fn parse_usize_matches_str_parse() {
    for s in ["5", "+10", "abc", "", "18446744073709551615", "18446744073709551616"] {
        assert_eq!(parse_usize(&cs(s)), s.parse::<usize>().ok(), "sample {:?}", s);
    }
}

#[test]
fn push_decimal_renders_like_display() {
    for n in [0u64, 7, 10, 1234, 1_000_000, u64::MAX] {
        let mut s = String::from("x=");
        push_decimal(&mut s, n);
        assert_eq!(s, format!("x={}", n));
    }
}

#[test]
fn decimal_rendering_parses_back() {
    for n in [0u64, 9, 10, 99, 65536, u64::MAX - 1, u64::MAX] {
        let mut s = String::new();
        push_decimal(&mut s, n);
        assert_eq!(parse_u64(&cs(&s)), Some(n));
    }
}

#[test]
fn string_of_collects_characters() {
    assert_eq!(string_of(&['h', 'é', '!']), "hé!");
    assert_eq!(string_of(&[]), "");
}
