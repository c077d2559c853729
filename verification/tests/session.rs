use trapdoor::command::{parse_command, Command};
use trapdoor::palette::Pal;
use trapdoor::session::{parse_break_spec, Reply, RunMode, Session, Verdict, HELP};

fn plain(script: &str, run: bool) -> Session {
    Session::new(Pal::new(false), script, run)
}

fn say(r: Reply) -> Vec<String> {
    match r {
        Reply::Say(v) => v,
        _ => panic!("expected lines to print"),
    }
}

#[test]
fn new_session_modes() {
    let s = plain("demo.sh", false);
    assert!(matches!(s.mode, RunMode::Step));
    assert_eq!(s.last_motion, "s");
    assert_eq!(s.next_bp_id, 1);
    let r = plain("demo.sh", true);
    assert!(matches!(r.mode, RunMode::Continue));
}

#[test]
fn break_spec_forms() {
    assert_eq!(parse_break_spec("13", "ex/demo.sh"), Some(("ex/demo.sh".to_string(), 13, None)));
    assert_eq!(
        parse_break_spec("demo.sh:13 if (( count == 1 ))", "x.sh"),
        Some(("demo.sh".to_string(), 13, Some("(( count == 1 ))".to_string())))
    );
    assert_eq!(parse_break_spec("  utils.sh:40  ", "x.sh"), Some(("utils.sh".to_string(), 40, None)));
    assert_eq!(parse_break_spec("C:/a.sh:7", "x.sh"), Some(("C:/a.sh".to_string(), 7, None)));
    assert_eq!(parse_break_spec("foo", "x.sh"), None);
    assert_eq!(parse_break_spec("demo.sh: 13", "x.sh"), None);
    assert_eq!(parse_break_spec("13 if", "x.sh"), None);
}

#[test]
fn add_breakpoint_messages() {
    let mut s = plain("examples/demo.sh", true);
    let out = s.add_breakpoint("demo.sh:13 if (( count == 1 ))");
    assert_eq!(out, vec!["breakpoint #1 at demo.sh:13  if (( count == 1 ))".to_string()]);
    let out = s.add_breakpoint("36");
    assert_eq!(out, vec!["breakpoint #2 at demo.sh:36".to_string()]);
    let out = s.add_breakpoint("nope");
    assert_eq!(
        out,
        vec![
            "bad breakpoint spec: nope".to_string(),
            "expected: <line> | <file>:<line> | <file>:<line> if <bash-cond>".to_string()
        ]
    );
    assert_eq!(s.bps.len(), 2);
    assert_eq!(s.next_bp_id, 3);
    let mut c = Session::new(Pal::new(true), "demo.sh", true);
    assert_eq!(c.add_breakpoint("3"), vec!["\x1b[32mbreakpoint #1\x1b[0m at demo.sh:3".to_string()]);
}

#[test]
fn list_and_delete_breakpoints() {
    let mut s = plain("demo.sh", true);
    assert_eq!(s.list_breakpoints(), vec!["no breakpoints".to_string()]);
    s.add_breakpoint("demo.sh:13 if (( count == 1 ))");
    s.add_breakpoint("20");
    assert_eq!(
        s.list_breakpoints(),
        vec![
            "  #1  demo.sh:13  if (( count == 1 ))  (0 hits)".to_string(),
            "  #2  demo.sh:20  (0 hits)".to_string()
        ]
    );
    assert_eq!(s.delete_breakpoint(1), "deleted breakpoint #1");
    assert_eq!(s.delete_breakpoint(1), "no breakpoint #1");
    assert_eq!(s.bps.len(), 1);
    assert_eq!(s.bps[0].id, 2);
    // a new breakpoint never reuses a deleted id
    s.add_breakpoint("5");
    assert_eq!(s.bps[1].id, 3);
}

#[test]
fn conditional_breakpoint_fires_on_status_zero() {
    let mut s = plain("/x/examples/demo.sh", true);
    s.add_breakpoint("demo.sh:13 if (( count == 1 ))");
    assert_eq!(s.breakpoint_at("/x/examples/demo.sh", 13, 0), Some(0));
    assert_eq!(s.breakpoint_at("/x/examples/demo.sh", 13, 1), None);
    assert_eq!(s.breakpoint_at("/x/examples/demo.sh", 14, 0), None);
    assert_eq!(s.breakpoint_at("/x/examples/other.sh", 13, 0), None);
    // first loop turn: the condition fails, nothing fires, the script goes on
    match s.arrive("/x/examples/demo.sh", 13, 1, "trapdoor-stub-1.sh") {
        Verdict::Check(i, c) => {
            assert_eq!((i, c.as_str()), (0, "(( count == 1 ))"));
            assert!(matches!(s.condition_status("/x/examples/demo.sh", 13, 1, i, 1), Verdict::Go));
        }
        _ => panic!("the condition must be run"),
    }
    assert_eq!(s.bps[0].hits, 0);
    // second turn: it holds
    match s.arrive("/x/examples/demo.sh", 13, 1, "trapdoor-stub-1.sh") {
        Verdict::Check(i, _) => {
            assert!(matches!(s.condition_status("/x/examples/demo.sh", 13, 1, i, 0), Verdict::Stop(Some(1))));
        }
        _ => panic!("the condition must be run"),
    }
    assert_eq!(s.bps[0].hits, 1);
    let header = s.announce("examples/demo.sh", 13, 1, "count=$((count + 1))", Some(1), &vec![]);
    assert_eq!(header[1], "examples/demo.sh:13 [depth 1] ● breakpoint #1");
    assert_eq!(header[2], "  → count=$((count + 1))");
}

#[test]
fn later_breakpoint_fires_when_earlier_condition_fails() {
    let mut s = plain("demo.sh", true);
    s.add_breakpoint("demo.sh:13 if false");
    s.add_breakpoint("demo.sh:13");
    match s.arrive("demo.sh", 13, 1, "stub.sh") {
        Verdict::Check(i, c) => {
            assert_eq!((i, c.as_str()), (0, "false"));
            assert!(matches!(s.condition_status("demo.sh", 13, 1, i, 1), Verdict::Stop(Some(2))));
        }
        _ => panic!("the condition of #1 must be run"),
    }
    assert_eq!(s.bps[0].hits, 0);
    assert_eq!(s.bps[1].hits, 1);
}

#[test]
fn unconditional_breakpoint_counts_hits() {
    let mut s = plain("demo.sh", true);
    s.add_breakpoint("4");
    assert!(matches!(s.arrive("./demo.sh", 4, 1, "stub.sh"), Verdict::Stop(Some(1))));
    assert!(matches!(s.arrive("./demo.sh", 4, 1, "stub.sh"), Verdict::Stop(Some(1))));
    assert!(matches!(s.arrive("./demo.sh", 5, 1, "stub.sh"), Verdict::Go));
    assert!(matches!(s.arrive("/tmp/stub.sh", 4, 1, "stub.sh"), Verdict::Go));
    assert_eq!(s.list_breakpoints(), vec!["  #1  demo.sh:4  (2 hits)".to_string()]);
}

#[test]
fn arrival_follows_the_run_mode() {
    let mut s = plain("d.sh", false);
    assert!(matches!(s.arrive("d.sh", 1, 1, "stub.sh"), Verdict::Stop(None)));
    s.mode = RunMode::Continue;
    assert!(matches!(s.arrive("d.sh", 1, 1, "stub.sh"), Verdict::Go));
    s.mode = RunMode::Step;
    s.detach();
    assert!(matches!(s.arrive("d.sh", 1, 1, "stub.sh"), Verdict::Go));
}

#[test]
fn stop_decisions_by_mode() {
    let mut s = plain("d.sh", false);
    assert!(s.should_stop("d.sh", 1, 1, None));
    s.mode = RunMode::Next(2);
    assert!(s.should_stop("d.sh", 1, 2, None));
    assert!(s.should_stop("d.sh", 1, 1, None));
    assert!(!s.should_stop("d.sh", 1, 3, None));
    s.mode = RunMode::Finish(2);
    assert!(!s.should_stop("d.sh", 1, 2, None));
    assert!(s.should_stop("d.sh", 1, 1, None));
    s.mode = RunMode::Continue;
    assert!(!s.should_stop("d.sh", 1, 1, None));
    assert!(s.should_stop("d.sh", 1, 1, Some(4)));
}

#[test]
fn until_is_one_shot() {
    let mut s = plain("examples/demo.sh", false);
    let r = s.handle_input("u 17", "examples/demo.sh", 3, 1);
    assert!(matches!(r, Reply::Resume));
    assert!(!s.should_stop("examples/demo.sh", 16, 1, None));
    assert!(!s.should_stop("other.sh", 17, 1, None));
    assert!(s.should_stop("examples/demo.sh", 17, 1, None));
    assert!(matches!(s.mode, RunMode::Continue));
    assert!(!s.should_stop("examples/demo.sh", 17, 1, None));
    assert_eq!(s.last_motion, "u 17");
}

#[test]
fn watches_show_at_every_stop() {
    let mut s = plain("examples/demo.sh", false);
    assert_eq!(say(s.handle_input("w $count", "examples/demo.sh", 3, 1)), vec!["watch #1: $count".to_string()]);
    assert_eq!(say(s.handle_input("w $fruit", "examples/demo.sh", 3, 1)), vec!["watch #2: $fruit".to_string()]);
    assert_eq!(s.watch_codes(), vec!["echo $count".to_string(), "echo $fruit".to_string()]);
    let lines = s.announce(
        "examples/demo.sh",
        17,
        1,
        "total=$((count * 14))",
        None,
        &vec!["3\n".to_string(), "cherry\n".to_string()],
    );
    assert_eq!(
        lines,
        vec![
            "".to_string(),
            "examples/demo.sh:17 [depth 1]".to_string(),
            "  → total=$((count * 14))".to_string(),
            "  watch #1: $count = 3".to_string(),
            "  watch #2: $fruit = cherry".to_string(),
        ]
    );
    assert_eq!(say(s.handle_input("wl", "d", 1, 1)), vec!["  #1  $count".to_string(), "  #2  $fruit".to_string()]);
    assert_eq!(say(s.handle_input("wd 1", "d", 1, 1)), vec!["deleted watch #1".to_string()]);
    assert_eq!(say(s.handle_input("wd 1", "d", 1, 1)), vec!["no watch #1".to_string()]);
    assert_eq!(say(s.handle_input("wd x", "d", 1, 1)), vec!["usage: wd <watch-id>".to_string()]);
    assert_eq!(say(s.handle_input("w", "d", 1, 1)), vec!["usage: w <bash-expr>".to_string()]);
    s.handle_input("wd 2", "d", 1, 1);
    assert_eq!(say(s.handle_input("wl", "d", 1, 1)), vec!["no watches".to_string()]);
}

#[test]
fn motion_commands_and_enter() {
    let mut s = plain("d.sh", false);
    assert!(matches!(s.handle_input("n", "d.sh", 5, 2), Reply::Resume));
    assert!(matches!(s.mode, RunMode::Next(2)));
    assert!(matches!(s.handle_input("   ", "d.sh", 6, 3), Reply::Resume));
    assert!(matches!(s.mode, RunMode::Next(3)));
    assert!(matches!(s.handle_input("finish", "d.sh", 6, 3), Reply::Resume));
    assert!(matches!(s.mode, RunMode::Finish(3)));
    assert!(matches!(s.handle_input("", "d.sh", 6, 2), Reply::Resume));
    assert!(matches!(s.mode, RunMode::Finish(2)));
    assert!(matches!(s.handle_input("c", "d.sh", 6, 2), Reply::Resume));
    assert!(matches!(s.mode, RunMode::Continue));
    assert!(matches!(s.handle_input("step", "d.sh", 6, 2), Reply::Resume));
    assert!(matches!(s.mode, RunMode::Step));
    assert_eq!(s.last_motion, "s");
}

#[test]
fn inspect_and_eval_commands() {
    let mut s = plain("d.sh", false);
    match s.handle_input("p count fruit", "d.sh", 13, 1) {
        Reply::Inspect(codes) => assert_eq!(
            codes,
            vec![
                "declare -p count 2>/dev/null || printf '%s: not set\\n' count".to_string(),
                "declare -p fruit 2>/dev/null || printf '%s: not set\\n' fruit".to_string(),
            ]
        ),
        _ => panic!("p runs code in the script"),
    }
    assert_eq!(say(s.handle_input("p", "d.sh", 13, 1)), vec!["usage: p <var> [var...]".to_string()]);
    match s.handle_input("x echo \"true avg: $(( total_bytes / requests ))\"", "d.sh", 13, 1) {
        Reply::Run(code) => assert_eq!(code, "echo \"true avg: $(( total_bytes / requests ))\""),
        _ => panic!("x runs code"),
    }
    match s.handle_input("!requests=11", "d.sh", 36, 1) {
        Reply::Run(code) => assert_eq!(code, "requests=11"),
        _ => panic!("!code runs code"),
    }
    match s.handle_input("!total_bytes=$(( 679 * (requests - 1) ))", "d.sh", 36, 1) {
        Reply::Run(code) => assert_eq!(code, "total_bytes=$(( 679 * (requests - 1) ))"),
        _ => panic!("!code runs code"),
    }
    match s.handle_input("! count=2", "d.sh", 36, 1) {
        Reply::Run(code) => assert_eq!(code, "count=2"),
        _ => panic!("! is x"),
    }
    assert_eq!(
        say(s.handle_input("x", "d.sh", 13, 1)),
        vec!["usage: x <bash code>   (runs inside the live script)".to_string()]
    );
    assert_eq!(s.eval_report("out\n", 0), "out\n");
    assert_eq!(s.eval_report("", 3), "(exit status 3)\n");
    assert_eq!(s.eval_report("x\n", -1), "x\n(exit status -1)\n");
}

#[test]
fn other_commands() {
    let mut s = plain("d.sh", false);
    assert!(matches!(s.handle_input("bt", "d.sh", 1, 1), Reply::Backtrace));
    assert!(matches!(s.handle_input("where", "d.sh", 1, 1), Reply::Backtrace));
    assert!(matches!(s.handle_input("q", "d.sh", 1, 1), Reply::Quit));
    match s.handle_input("l", "d.sh", 7, 1) {
        Reply::Source(f, c, l) => assert_eq!((f.as_str(), c, l), ("d.sh", 7, 7)),
        _ => panic!(),
    }
    match s.handle_input("l 20", "d.sh", 7, 1) {
        Reply::Source(f, c, l) => assert_eq!((f.as_str(), c, l), ("d.sh", 20, 7)),
        _ => panic!(),
    }
    assert_eq!(say(s.handle_input("h", "d.sh", 1, 1)), vec![HELP.to_string()]);
    assert_eq!(say(s.handle_input("zz top", "d.sh", 1, 1)), vec!["unknown command 'zz' — try 'h'".to_string()]);
    assert_eq!(say(s.handle_input("b", "d.sh", 1, 1)), vec!["usage: b <line> | b <file>:<line> [if <bash-cond>]".to_string()]);
    assert_eq!(say(s.handle_input("d", "d.sh", 1, 1)), vec!["usage: d <breakpoint-id>".to_string()]);
    assert_eq!(say(s.handle_input("u", "d.sh", 1, 1)), vec!["usage: u <line>".to_string()]);
    assert_eq!(say(s.handle_input("b 9", "d.sh", 1, 1)), vec!["breakpoint #1 at d.sh:9".to_string()]);
    assert_eq!(say(s.handle_input("bl", "d.sh", 1, 1)), vec!["  #1  d.sh:9  (0 hits)".to_string()]);
    assert_eq!(say(s.handle_input("delete 1", "d.sh", 1, 1)), vec!["deleted breakpoint #1".to_string()]);
}

#[test]
fn parse_command_forms() {
    assert!(matches!(parse_command("  s  ", "c"), Command::Step));
    assert!(matches!(parse_command("", "c"), Command::Continue));
    assert!(matches!(parse_command("u 17", "s"), Command::Until(Some(17))));
    assert!(matches!(parse_command("u x", "s"), Command::Until(None)));
    assert!(matches!(parse_command("d 3", "s"), Command::Delete(Some(3))));
    assert!(matches!(parse_command("?", "s"), Command::Help));
    match parse_command("b   demo.sh:13 if (( count == 2 ))  ", "s") {
        Command::Break(r) => assert_eq!(r, "demo.sh:13 if (( count == 2 ))"),
        _ => panic!(),
    }
}

#[test]
fn source_listing_window() {
    let s = plain("d.sh", false);
    let lines: Vec<String> = (1..=20).map(|n| format!("line {n}")).collect();
    let out = s.list_source("d.sh", Some(&lines), 10, 10);
    assert_eq!(out.len(), 9);
    assert_eq!(out[0], "    6   line 6");
    assert_eq!(out[4], "   10 ▶ line 10");
    assert_eq!(out[8], "   14   line 14");
    let top = s.list_source("d.sh", Some(&lines), 2, 3);
    assert_eq!(top.len(), 6);
    assert_eq!(top[0], "    1   line 1");
    assert_eq!(top[2], "    3 ▶ line 3");
    let end = s.list_source("d.sh", Some(&lines), 19, 1);
    assert_eq!(end.len(), 6);
    assert_eq!(end[5], "   20   line 20");
    assert!(s.list_source("d.sh", Some(&lines), 40, 1).is_empty());
    assert_eq!(s.list_source("gone.sh", None, 1, 1), vec!["(source not readable: gone.sh)".to_string()]);
    assert_eq!(s.list_source("gone.sh", None, u32::MAX, 1), vec!["(source not readable: gone.sh)".to_string()]);
}

#[test]
fn detach_and_pass_through() {
    let mut s = plain("d.sh", false);
    assert!(s.passes_through("/tmp/trapdoor-stub-42.sh", "trapdoor-stub-42.sh"));
    assert!(!s.passes_through("d.sh", "trapdoor-stub-42.sh"));
    assert_eq!(s.detach(), "stdin closed — detaching, script continues");
    assert!(s.passes_through("d.sh", "trapdoor-stub-42.sh"));
}
