use sitectl::numfmt::{decimal, octal, parse_octal_u32, parse_u64};
use sitectl::order::{sort_strings, sorted_set, str_less};
use sitectl::text::{
    chars_of, has_prefix, has_substring, has_suffix, is_whitespace, join_chars, lines_of, str_eq,
    string_of, terminate_lines, trim_chars, trim_end_matches_chars, trim_start_chars,
    trim_start_matches_chars, words_of,
};

fn s(v: &[char]) -> String {
    v.iter().collect()
}

const SAMPLES: &[&str] = &[
    "",
    "a",
    "  padded\t",
    "\n",
    "\n\n",
    "one\ntwo",
    "one\ntwo\n",
    "one\r\ntwo\r\n",
    "bare\rcr",
    "trailing\r",
    "x\r\r\ny",
    "  many   spaces\there ",
    "\u{a0}nbsp\u{3000}ideo\u{2028}sep",
    "server_name a.com www.a.com;",
    "ünïcödé  wörds",
];

#[test]
fn whitespace_matches_std_on_every_char() {
    for c in (0u32..=0x10FFFF).filter_map(char::from_u32) {
        assert_eq!(is_whitespace(c), c.is_whitespace(), "char {:?}", c);
    }
}

#[test]
fn lines_match_std() {
    for x in SAMPLES {
        let got: Vec<String> = lines_of(&chars_of(x)).iter().map(|l| s(l)).collect();
        let want: Vec<String> = x.lines().map(|l| l.to_string()).collect();
        assert_eq!(got, want, "input {:?}", x);
    }
}

#[test]
fn words_match_std() {
    for x in SAMPLES {
        let got: Vec<String> = words_of(&chars_of(x)).iter().map(|w| s(w)).collect();
        let want: Vec<String> = x.split_whitespace().map(|w| w.to_string()).collect();
        assert_eq!(got, want, "input {:?}", x);
    }
}

#[test]
fn trims_match_std() {
    for x in SAMPLES {
        assert_eq!(s(&trim_chars(&chars_of(x))), x.trim());
        assert_eq!(s(&trim_start_chars(&chars_of(x))), x.trim_start());
    }
}

#[test]
fn trim_matches_match_std() {
    let cases = [("server_nameserver_name x", "server_name"), (";;a;;", ";"), ("abc", ""), ("", "x")];
    for (x, p) in cases {
        let v = chars_of(x);
        let pv = chars_of(p);
        assert_eq!(s(&trim_start_matches_chars(&v, &pv)), x.trim_start_matches(p));
        assert_eq!(s(&trim_end_matches_chars(&v, &pv)), x.trim_end_matches(p));
    }
}

#[test]
fn prefix_suffix_substring_match_std() {
    let cases = [("hello", "he"), ("hello", "lo"), ("hello", "ll"), ("hello", ""), ("", "a"), ("ab", "abc")];
    for (x, p) in cases {
        let v = chars_of(x);
        let pv = chars_of(p);
        assert_eq!(has_prefix(&v, &pv), x.starts_with(p));
        assert_eq!(has_suffix(&v, &pv), x.ends_with(p));
        assert_eq!(has_substring(&v, &pv), x.contains(p));
    }
}

#[test]
fn join_matches_std() {
    let parts = vec![chars_of("a"), chars_of(""), chars_of("bc")];
    assert_eq!(s(&join_chars(&parts, &chars_of(", "))), ["a", "", "bc"].join(", "));
    assert_eq!(s(&join_chars(&Vec::new(), &chars_of("\n"))), "");
}

#[test]
fn string_round_trip_and_equality() {
    assert_eq!(string_of(&chars_of("héllo")), "héllo");
    assert!(str_eq("abc", "abc"));
    assert!(!str_eq("abc", "abd"));
    assert!(!str_eq("abc", "ab"));
}

#[test]
fn terminate_lines_adds_newlines() {
    let ls = vec!["a".to_string(), String::new(), "b".to_string()];
    assert_eq!(terminate_lines(&ls), "a\n\nb\n");
    assert_eq!(terminate_lines(&Vec::new()), "");
}

#[test]
fn decimal_and_octal_match_format() {
    for n in [0u64, 1, 9, 10, 99, 100, 12345, u32::MAX as u64, u64::MAX] {
        assert_eq!(decimal(n), format!("{}", n));
    }
    for n in [0u32, 1, 7, 8, 0o750, 0o777, u32::MAX] {
        assert_eq!(octal(n), format!("{:o}", n));
    }
}

#[test]
fn parse_u64_matches_std() {
    let cases = ["0", "42", "+42", "", "+", "-1", "1a", " 1", "18446744073709551615", "18446744073709551616", "007"];
    for x in cases {
        assert_eq!(parse_u64(x), x.parse::<u64>().ok(), "input {:?}", x);
    }
}

#[test]
fn parse_octal_matches_std() {
    let cases = ["750", "600", "0", "8", "+17", "", "???", "37777777777", "40000000000", "-1", "7 "];
    for x in cases {
        assert_eq!(parse_octal_u32(x), u32::from_str_radix(x, 8).ok(), "input {:?}", x);
    }
}

#[test]
fn octal_reads_back() {
    for n in [0u32, 0o600, 0o755, 0o777, u32::MAX] {
        assert_eq!(parse_octal_u32(&octal(n)), Some(n));
    }
    for n in [0u64, 5, 1234567, u64::MAX] {
        assert_eq!(parse_u64(&decimal(n)), Some(n));
    }
}

#[test]
fn sort_matches_std() {
    let names: Vec<String> = ["b.com", "a.com", "B.com", "ä.com", "a.com", ""].iter().map(|x| x.to_string()).collect();
    let mut want = names.clone();
    want.sort();
    assert_eq!(sort_strings(names.clone()), want);
    let mut set: Vec<String> = names.iter().cloned().collect::<std::collections::BTreeSet<_>>().into_iter().collect();
    set.sort();
    assert_eq!(sorted_set(names), set);
}

#[test]
fn str_less_matches_std() {
    let cases = [("a", "b"), ("b", "a"), ("a", "a"), ("", "a"), ("ab", "a"), ("Z", "a"), ("é", "z")];
    for (a, b) in cases {
        assert_eq!(str_less(a, b), a < b);
    }
}
