use trapdoor::palette::Pal;
use trapdoor::paths::paths_match;
use trapdoor::protocol::{chomp, eval_request, parse_stop, Frame};
use trapdoor::session::{Reply, RunMode, Session};

fn bp_list(s: &Session) -> Vec<(u32, String, u32, Option<String>, u64)> {
    s.bps.iter().map(|b| (b.id, b.file.clone(), b.line, b.cond.clone(), b.hits)).collect()
}

#[test]
fn break_then_delete_restores_the_list() {
    let mut s = Session::new(Pal::new(false), "demo.sh", true);
    s.add_breakpoint("3");
    s.add_breakpoint("lib.sh:9 if [[ $x == y ]]");
    let before = bp_list(&s);
    let id = s.next_bp_id;
    s.add_breakpoint("demo.sh:13 if (( count == 1 ))");
    assert_eq!(s.delete_breakpoint(id), format!("deleted breakpoint #{id}"));
    assert_eq!(bp_list(&s), before);
    assert_eq!(s.next_bp_id, id + 1);
    assert!(s.bps.iter().all(|b| b.id != id));
}

#[test]
fn watch_then_delete_restores_the_list() {
    let mut s = Session::new(Pal::new(false), "demo.sh", false);
    s.add_watch("$a");
    let id = s.next_watch_id;
    s.add_watch("$b");
    assert_eq!(s.delete_watch(id), format!("deleted watch #{id}"));
    assert_eq!(s.watches.len(), 1);
    assert_eq!(s.watches[0].expr, "$a");
}

#[test]
fn stop_message_roundtrip() {
    for (src, line, depth, cmd) in [
        ("examples/demo.sh", 13u32, 1u32, "count=$((count + 1))"),
        ("/tmp/a b.sh", 0, 4294967295, ""),
        ("x", 4294967295, 0, "a\tb\tc"),
    ] {
        let msg = format!("STOP\t{src}\t{line}\t{depth}\t{cmd}");
        let s = parse_stop(&msg).unwrap();
        assert_eq!((s.src.as_str(), s.line, s.depth, s.cmd.as_str()), (src, line, depth, cmd));
    }
}

#[test]
fn eval_requests_are_one_line() {
    let r = eval_request("for i in 1 2\ndo echo $i\ndone\n");
    assert_eq!(r.lines().count(), 1);
    assert_eq!(r, "EVAL for i in 1 2; do echo $i; done; ");
}

#[test]
fn path_matching_is_symmetric() {
    let paths = ["demo.sh", "./demo.sh", "ex/demo.sh", "/abs/ex/demo.sh", "ex/other.sh", "a\\demo.sh"];
    for a in paths {
        assert!(paths_match(a, a));
        for b in paths {
            assert_eq!(paths_match(a, b), paths_match(b, a), "{a} {b}");
        }
    }
}

#[test]
fn enter_repeats_until() {
    let mut s = Session::new(Pal::new(false), "demo.sh", false);
    assert!(matches!(s.handle_input("u 17", "demo.sh", 3, 1), Reply::Resume));
    assert!(s.should_stop("demo.sh", 17, 1, None));
    assert!(matches!(s.handle_input("", "demo.sh", 17, 1), Reply::Resume));
    assert!(matches!(&s.mode, RunMode::Until(f, 17) if f == "demo.sh"));
}

#[test]
fn framed_output_reads_back() {
    for (text, status) in [("declare -- count=\"1\"\n", 0i32), ("a\n\nb", -1), ("", 3), ("x\ny\n", i32::MIN)] {
        let wire = format!("{text}\n\u{4}END {status}\n");
        let mut f = Frame::new();
        let mut got = None;
        for raw in wire.split_inclusive('\n') {
            if let Some(done) = f.feed(&chomp(raw)) {
                got = Some(done);
                break;
            }
        }
        assert_eq!(got, Some((text.to_string(), status)), "{text:?}");
    }
}
