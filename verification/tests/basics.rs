use trapdoor::numbers::{decimal_chars, pad_left_chars, parse_i32_chars, parse_u32_chars, signed_decimal_chars};
use trapdoor::palette::Pal;
use trapdoor::paths::{basename, paths_match};
use trapdoor::text::{
    chars_of, lines_of_chars, one_line_chars, strip_dot_slash_chars, strip_line_end_chars,
    trim_chars, words_of,
};

fn cv(s: &str) -> Vec<char> {
    s.chars().collect()
}

fn st(v: &[char]) -> String {
    v.iter().collect()
}

#[test]
fn basename_takes_last_component() {
    assert_eq!(basename("examples/demo.sh"), "demo.sh");
    assert_eq!(basename("/a/b/c.sh"), "c.sh");
    assert_eq!(basename("C:\\scripts\\run.sh"), "run.sh");
    assert_eq!(basename("demo.sh"), "demo.sh");
    assert_eq!(basename("dir/"), "");
    assert_eq!(basename(""), "");
}

#[test]
fn paths_match_exact_and_dot_slash() {
    assert!(paths_match("demo.sh", "demo.sh"));
    assert!(paths_match("./demo.sh", "demo.sh"));
    assert!(paths_match("././demo.sh", "demo.sh"));
    assert!(paths_match("examples/demo.sh", "./examples/demo.sh"));
}

#[test]
fn paths_match_basename_when_one_side_has_no_directory() {
    assert!(paths_match("demo.sh", "/home/u/examples/demo.sh"));
    assert!(paths_match("/home/u/examples/demo.sh", "demo.sh"));
    assert!(!paths_match("a/demo.sh", "b/demo.sh"));
    assert!(!paths_match("demo.sh", "examples/other.sh"));
}

#[test]
fn palette_on_and_off() {
    let p = Pal::new(true);
    assert_eq!(p.dim, "\x1b[2m");
    assert_eq!(p.bold, "\x1b[1m");
    assert_eq!(p.red, "\x1b[31m");
    assert_eq!(p.green, "\x1b[32m");
    assert_eq!(p.yellow, "\x1b[33m");
    assert_eq!(p.cyan, "\x1b[36m");
    assert_eq!(p.reset, "\x1b[0m");
    let q = Pal::new(false);
    for c in [q.dim, q.bold, q.red, q.green, q.yellow, q.cyan, q.reset] {
        assert_eq!(c, "");
    }
}

#[test]
fn parse_u32_follows_from_str() {
    for s in ["0", "13", "+7", "4294967295", "007", "", "+", "-1", "4294967296", "1 ", " 1", "1a", "99999999999999999999"] {
        assert_eq!(parse_u32_chars(&cv(s)), s.parse::<u32>().ok(), "input {s:?}");
    }
}

#[test]
fn parse_i32_follows_from_str() {
    for s in ["0", "-1", "3", "+3", "2147483647", "-2147483648", "2147483648", "-2147483649", "-", "+", "", "1-", "--1", "255"] {
        assert_eq!(parse_i32_chars(&cv(s)), s.parse::<i32>().ok(), "input {s:?}");
    }
}

#[test]
fn decimal_and_padding() {
    assert_eq!(st(&decimal_chars(0)), "0");
    assert_eq!(st(&decimal_chars(1234)), "1234");
    assert_eq!(st(&decimal_chars(u64::MAX)), u64::MAX.to_string());
    assert_eq!(st(&signed_decimal_chars(-42)), "-42");
    assert_eq!(st(&signed_decimal_chars(i32::MIN)), i32::MIN.to_string());
    assert_eq!(st(&pad_left_chars(&cv("13"), 5)), "   13");
    assert_eq!(st(&pad_left_chars(&cv("123456"), 5)), "123456");
    for n in [0u32, 9, 10, 99, 100, 65535, u32::MAX] {
        assert_eq!(parse_u32_chars(&decimal_chars(n as u64)), Some(n));
    }
}

#[test]
fn trim_like_str_trim() {
    for s in ["  a b  ", "\t\nx\r\n", "", "   ", "\u{3000}y\u{A0}", "no"] {
        assert_eq!(st(&trim_chars(&cv(s))), s.trim(), "input {s:?}");
        let once = trim_chars(&cv(s));
        assert_eq!(trim_chars(&once), once);
    }
}

#[test]
fn words_like_split_whitespace() {
    for s in ["p count fruit", "  a  b\tc\n", "", "   ", "one"] {
        let got: Vec<String> = words_of(&cv(s)).iter().map(|w| st(w)).collect();
        let want: Vec<String> = s.split_whitespace().map(String::from).collect();
        assert_eq!(got, want, "input {s:?}");
    }
}

#[test]
fn lines_like_str_lines() {
    for s in ["a\nb\n", "a\r\nb", "", "\n", "x\r", "one\n\ntwo\r\n", "tail\r\r\n"] {
        let got: Vec<String> = lines_of_chars(&cv(s)).iter().map(|w| st(w)).collect();
        let want: Vec<String> = s.lines().map(String::from).collect();
        assert_eq!(got, want, "input {s:?}");
    }
}

#[test]
fn newlines_become_semicolons() {
    assert_eq!(st(&one_line_chars(&cv("a=1\nb=2\n"))), "a=1; b=2; ");
    assert_eq!(st(&one_line_chars(&cv("echo hi"))), "echo hi");
}

#[test]
fn strip_helpers() {
    assert_eq!(st(&strip_line_end_chars(&cv("GO\r\n\n"))), "GO");
    assert_eq!(st(&strip_line_end_chars(&cv("a\nb"))), "a\nb");
    assert_eq!(st(&strip_dot_slash_chars(&cv("././x/./y"))), "x/./y");
    assert_eq!(st(&chars_of("héllo")), "héllo");
}
