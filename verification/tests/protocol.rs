use trapdoor::cli::{parse_args, CliAction};
use trapdoor::protocol::{backtrace_text, chomp, eval_request, parse_stop, source_lines, Frame};

#[test]
fn stop_messages() {
    let s = parse_stop("STOP\texamples/demo.sh\t13\t1\tcount=$((count + 1))").unwrap();
    assert_eq!((s.src.as_str(), s.line, s.depth, s.cmd.as_str()), ("examples/demo.sh", 13, 1, "count=$((count + 1))"));
    let t = parse_stop("STOP\tx.sh\t3\t2\tprintf '%s\\t%s' a b").unwrap();
    assert_eq!(t.cmd, "printf '%s\\t%s' a b");
    let tabs = parse_stop("STOP\tx.sh\t3\t2\tа\tb").unwrap();
    assert_eq!(tabs.cmd, "а\tb");
    let short = parse_stop("STOP\tonly").unwrap();
    assert_eq!((short.src.as_str(), short.line, short.depth, short.cmd.as_str()), ("only", 0, 1, ""));
    let bad = parse_stop("STOP\tf\tx\ty\tz").unwrap();
    assert_eq!((bad.line, bad.depth), (0, 1));
    assert!(parse_stop("GO").is_none());
    assert!(parse_stop("STOP x").is_none());
}

#[test]
fn frames_collect_until_sentinel() {
    let mut f = Frame::new();
    assert!(f.feed("declare -- count=\"1\"").is_none());
    assert!(f.feed("").is_none());
    assert_eq!(f.feed("\u{4}END 0"), Some(("declare -- count=\"1\"\n".to_string(), 0)));
    let mut g = Frame::new();
    assert!(g.feed("").is_none());
    assert_eq!(g.feed("\u{4}END 1"), Some(("".to_string(), 1)));
    let mut h = Frame::new();
    assert_eq!(h.feed("\u{4}ENDoops"), Some(("".to_string(), -1)));
    let mut k = Frame::new();
    k.feed("partial");
    assert_eq!(k.cut(), ("partial\n".to_string(), -1));
}

#[test]
fn requests_and_lines() {
    assert_eq!(eval_request("a=1\nb=2"), "EVAL a=1; b=2");
    assert_eq!(chomp("GO\r\n"), "GO");
    assert_eq!(source_lines("a\nb\r\n\nc"), vec!["a", "b", "", "c"]);
    assert_eq!(backtrace_text(""), "(top level)\n");
    assert_eq!(backtrace_text("#0  greet()  at demo.sh:7\n"), "#0  greet()  at demo.sh:7\n");
}

fn args(v: &[&str]) -> Vec<String> {
    v.iter().map(|s| s.to_string()).collect()
}

#[test]
fn command_line() {
    match parse_args(&args(&["--no-color", "-r", "-b", "demo.sh:13 if (( count == 1 ))", "examples/demo.sh", "-b", "x"]), true) {
        CliAction::Start(o) => {
            assert_eq!(o.script, "examples/demo.sh");
            assert_eq!(o.script_args, vec!["-b", "x"]);
            assert_eq!(o.breaks, vec!["demo.sh:13 if (( count == 1 ))"]);
            assert!(o.run);
            assert!(!o.color);
            assert_eq!(o.bash, "bash");
        }
        _ => panic!("should start"),
    }
    match parse_args(&args(&["--bash", "/bin/bash5", "s.sh"]), false) {
        CliAction::Start(o) => assert_eq!(o.bash, "/bin/bash5"),
        _ => panic!(),
    }
    assert!(matches!(parse_args(&args(&["-h", "s.sh"]), true), CliAction::Help));
    assert!(matches!(parse_args(&args(&["--version"]), true), CliAction::Version));
    assert!(matches!(parse_args(&args(&[]), true), CliAction::Usage));
    assert!(matches!(parse_args(&args(&["-r"]), true), CliAction::Usage));
    assert!(matches!(parse_args(&args(&[""]), true), CliAction::Usage));
    match parse_args(&args(&["-b"]), true) {
        CliAction::Fail(m) => assert_eq!(m, "option -b requires an argument"),
        _ => panic!(),
    }
    match parse_args(&args(&["s.sh"]), true) {
        CliAction::Start(o) => assert!(o.color),
        _ => panic!(),
    }
    match parse_args(&args(&["--bash"]), true) {
        CliAction::Fail(m) => assert_eq!(m, "option --bash requires an argument"),
        _ => panic!(),
    }
}
