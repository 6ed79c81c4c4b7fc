use heart_cli::decimal::{decimal_text, parse_decimal_u64};
use heart_cli::text::{
    after_last, field_after, next_line, remove_matches, trim_start_matches, trim_whitespace,
    word_at,
};

fn chars(s: &str) -> Vec<char> {
    s.chars().collect()
}

fn string(v: &[char]) -> String {
    v.iter().collect()
}

fn all_lines(s: &str) -> Vec<String> {
    let v = chars(s);
    let mut out = Vec::new();
    let mut pos = 0;
    while pos < v.len() {
        let (line, next) = next_line(&v, pos);
        out.push(string(&line));
        pos = next;
    }
    out
}

#[test]
fn decimal_text_prints_like_format() {
    for n in [0u64, 7, 10, 99, 100, 12345, 1_000_000, u64::MAX] {
        assert_eq!(string(&decimal_text(n)), format!("{}", n));
    }
}

#[test]
fn parse_decimal_u64_matches_str_parse() {
    let inputs = [
        "0", "42", "+7", "", "+", "-", "-1", "12a", " 1", "1 ", "007",
        "18446744073709551615", "18446744073709551616", "99999999999999999999999",
        "+18446744073709551615", "١٢",
    ];
    for s in inputs {
        assert_eq!(parse_decimal_u64(&chars(s)), s.parse::<u64>().ok(), "input {:?}", s);
    }
}

#[test]
fn parse_reads_back_printed_numbers() {
    for n in [0u64, 1, 9, 10, 65535, 4_000_000_000, u64::MAX] {
        assert_eq!(parse_decimal_u64(&decimal_text(n)), Some(n));
    }
}

#[test]
fn trim_matches_str_trim() {
    let inputs = [
        "", "   ", "abc", "  a b  ", "\t\nx\r\n", "\u{3000}wide\u{3000}", "\u{a0}nbsp\u{85}",
        "\u{200b}zero-width\u{200b}", "mid\u{2003}dle",
    ];
    for s in inputs {
        assert_eq!(string(&trim_whitespace(&chars(s))), s.trim(), "input {:?}", s);
    }
}

#[test]
fn lines_match_str_lines() {
    let inputs = ["", "\n", "a", "a\n", "a\r\nb\n\nc", "x\r", "\r\n\r\n", "one\ntwo\r\nthree\r"];
    for s in inputs {
        let expected: Vec<String> = s.lines().map(|l| l.to_string()).collect();
        assert_eq!(all_lines(s), expected, "input {:?}", s);
    }
}

#[test]
fn word_at_matches_split_whitespace() {
    let inputs = ["MemTotal:       16310036 kB", "", "   ", "a", "  a  b\tc ", "x\u{3000}y"];
    for s in inputs {
        for n in 0..4 {
            let expected = s.split_whitespace().nth(n).map(|w| w.to_string());
            assert_eq!(word_at(&chars(s), n).map(|w| string(&w)), expected, "{:?} {}", s, n);
        }
    }
}

#[test]
fn field_after_matches_split_nth() {
    let inputs = ["model name\t: Intel(R) Core(TM)", "no colon", ":", "a:b:c", "a::b", "x:"];
    for s in inputs {
        let expected = s.split(':').nth(1).map(|f| f.to_string());
        assert_eq!(field_after(&chars(s), ':').map(|f| string(&f)), expected, "{:?}", s);
    }
}

#[test]
fn trim_start_matches_strips_every_copy() {
    let key = chars("PRETTY_NAME=");
    for s in ["PRETTY_NAME=\"Arch\"", "PRETTY_NAME=PRETTY_NAME=x", "PRETTY_NAME", "other"] {
        assert_eq!(string(&trim_start_matches(&chars(s), &key)), s.trim_start_matches("PRETTY_NAME="));
    }
}

#[test]
fn remove_matches_is_replace_with_nothing() {
    let cases = [("Intel(R) Xeon(R)", "(R)"), ("(R)(R)R)", "(R)"), ("aaa", "aa"), ("CPU CPU x", "CPU "), ("", "x")];
    for (s, p) in cases {
        assert_eq!(string(&remove_matches(&chars(s), &chars(p))), s.replace(p, ""), "{:?} {:?}", s, p);
    }
}

#[test]
fn after_last_is_rsplit_next() {
    for s in ["/bin/zsh", "zsh", "/usr/bin/", "", "/", "a/b/c"] {
        assert_eq!(string(&after_last(&chars(s), '/')), s.rsplit('/').next().unwrap(), "{:?}", s);
    }
}
