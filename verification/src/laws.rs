use vstd::prelude::*;
use crate::cli::{cli_from, cli_of, OptsView};
use crate::command::{command_of, effective_input, rest_of, verb_of, CommandView};
use crate::numbers::{
    decimal, lemma_decimal, law_parse_u32_decimal, all_digits, drop_plus, is_digit,
    parse_i32, signed_decimal, unsigned_digits,
};
use crate::protocol::{
    collect_lines, frame_output, frame_status, pieces, stop_of, StopView, SENTINEL, STOP_PREFIX,
};
use crate::paths::{law_paths_match_reflexive, same_script};
use crate::session::{
    bp_is_at, break_target, first_at, lemma_first_at, motion_stops, reply_of, window_from,
    window_to, BpView, ModeView, ReplyView, SessionView, VerdictView,
};
use crate::text::{
    ends_with, find_from, first_ws_from, index_of_from, is_ws, lemma_index_of_from, lemma_ws_run_end, strip_line_end, lemma_ws_run_start, one_line, starts_with, trim,
    ws_run_end, ws_run_start,
};

verus! {

// ---------------------------------------------------------- breakpoints

/// Setting a breakpoint and then deleting it by the id it was given leaves
/// the breakpoint list as it was; only the id counter moved on.
pub proof fn law_break_then_delete(s: SessionView, spec: Seq<char>)
    requires
        s.wf(),
        break_target(spec, s.script) is Some,
        s.next_bp_id < u32::MAX,
    ensures
        s.with_breakpoint(spec).without_breakpoint(s.next_bp_id) == (SessionView {
            next_bp_id: (s.next_bp_id + 1) as u32,
            ..s
        }),
{
    let t = s.with_breakpoint(spec);
    let id = s.next_bp_id;
    let last = s.bps.len() as int;
    assert(t.bps[last].id == id);
    assert(t.has_bp(id));
    let i = choose|i: int| 0 <= i < t.bps.len() && t.bps[i].id == id;
    if i < last {
        assert(t.bps[i] == s.bps[i]);
        assert(s.bps[i].id < s.next_bp_id);
    }
    assert(i == last);
    assert(t.bps.remove(i) =~= s.bps);
}

/// A new breakpoint gets an id that no breakpoint of the session holds.
pub proof fn law_new_breakpoint_id_is_fresh(s: SessionView, spec: Seq<char>)
    requires
        s.wf(),
        break_target(spec, s.script) is Some,
        s.next_bp_id < u32::MAX,
    ensures
        s.with_breakpoint(spec).wf(),
        forall|i: int| 0 <= i < s.bps.len() ==> #[trigger] s.bps[i].id != s.next_bp_id,
        s.with_breakpoint(spec).bps.last().id == s.next_bp_id,
{
    let t = s.with_breakpoint(spec);
    assert forall|i: int, j: int| 0 <= i < j < t.bps.len() implies #[trigger] t.bps[i].id
        < #[trigger] t.bps[j].id by {
        if j == s.bps.len() {
            assert(t.bps[i] == s.bps[i]);
        } else {
            assert(t.bps[i] == s.bps[i] && t.bps[j] == s.bps[j]);
        }
    }
    assert forall|i: int| 0 <= i < t.bps.len() implies #[trigger] t.bps[i].id < t.next_bp_id by {
        if i < s.bps.len() {
            assert(t.bps[i] == s.bps[i]);
        }
    }
}

/// Any breakpoint set at a place can fire there: trying the breakpoints at
/// `line` of `src` in order, from `from` on, never passes one without a
/// condition. Either a breakpoint fires, or the condition of an earlier one
/// must be run first (and a failing condition moves on to the next one).
pub proof fn law_unconditional_breakpoint_fires(
    s: SessionView,
    src: Seq<char>,
    line: u32,
    depth: u32,
    from: int,
    j: int,
)
    requires
        0 <= from <= j < s.bps.len(),
        bp_is_at(s.bps[j], src, line),
        s.bps[j].cond is None,
    ensures
        ({
            let v = s.scan(src, line, depth, from).1;
            ||| v matches VerdictView::Stop(Some(_))
            ||| (v matches VerdictView::Check(i, _) && from <= i < j)
        }),
{
    lemma_first_at(s.bps, src, line, from);
    let k = first_at(s.bps, src, line, from).unwrap();
    assert(k <= j);
}

/// What trying the breakpoints at `line` of `src` from index `from` on
/// answers: a stop for a breakpoint names that breakpoint by its id and
/// counts one more hit on it and on nothing else; a stop for no breakpoint
/// counts nothing; a condition to run is that of a breakpoint set there.
proof fn lemma_scan_outcome(s: SessionView, src: Seq<char>, line: u32, depth: u32, from: int)
    requires
        0 <= from,
    ensures
        ({
            let (t, v) = s.scan(src, line, depth, from);
            &&& v matches VerdictView::Stop(Some(id)) ==> exists|k: int|
                from <= k < s.bps.len() && bp_is_at(#[trigger] s.bps[k], src, line)
                    && s.bps[k].cond is None && s.bps[k].id == id && t.bps == s.bps.update(
                    k,
                    BpView { hits: (s.bps[k].hits + 1) as u64, ..s.bps[k] },
                )
            &&& v matches VerdictView::Stop(None) ==> t.bps == s.bps
            &&& v matches VerdictView::Check(i, c) ==> from <= i < s.bps.len() && bp_is_at(
                s.bps[i],
                src,
                line,
            ) && s.bps[i].cond == Some(c) && t == s
        }),
{
    lemma_first_at(s.bps, src, line, from);
    match first_at(s.bps, src, line, from) {
        Some(i) => {
            if s.bps[i].cond is None {
                let t = s.scan(src, line, depth, from).0;
                assert(t.bps == s.bps.update(
                    i,
                    BpView { hits: (s.bps[i].hits + 1) as u64, ..s.bps[i] },
                ));
                assert(bp_is_at(s.bps[i], src, line));
            }
        },
        None => {},
    }
}

/// A stop for a breakpoint on the stub's report names the breakpoint that
/// fired by its own id, whatever its place in the list: one set at that
/// line of that file, without a condition, whose hit count goes up by one
/// while no other breakpoint changes. A stop for no breakpoint changes no
/// breakpoint.
pub proof fn law_arrival_names_fired_breakpoint(
    s: SessionView,
    src: Seq<char>,
    line: u32,
    depth: u32,
    stub: Seq<char>,
)
    ensures
        ({
            let (t, v) = s.arrival(src, line, depth, stub);
            &&& v matches VerdictView::Stop(Some(id)) ==> exists|k: int|
                0 <= k < s.bps.len() && bp_is_at(#[trigger] s.bps[k], src, line)
                    && s.bps[k].cond is None && s.bps[k].id == id && t.bps == s.bps.update(
                    k,
                    BpView { hits: (s.bps[k].hits + 1) as u64, ..s.bps[k] },
                )
            &&& v matches VerdictView::Stop(None) ==> t.bps == s.bps
        }),
{
    lemma_scan_outcome(s, src, line, depth, 0);
}

/// Once the condition of breakpoint `i` ran: status 0 stops for that very
/// breakpoint, named by its id, and counts one hit on it alone; any other
/// status stops, if at all, for a later breakpoint set at the same place,
/// again named by its own id.
pub proof fn law_condition_names_fired_breakpoint(
    s: SessionView,
    src: Seq<char>,
    line: u32,
    depth: u32,
    i: int,
    status: i32,
)
    requires
        0 <= i < s.bps.len(),
    ensures
        ({
            let (t, v) = s.after_condition(src, line, depth, i, status);
            &&& status == 0 ==> v == VerdictView::Stop(Some(s.bps[i].id)) && t.bps
                == s.bps.update(i, BpView { hits: (s.bps[i].hits + 1) as u64, ..s.bps[i] })
            &&& status != 0 ==> (v matches VerdictView::Stop(Some(id)) ==> exists|k: int|
                i < k < s.bps.len() && bp_is_at(#[trigger] s.bps[k], src, line)
                    && s.bps[k].cond is None && s.bps[k].id == id && t.bps == s.bps.update(
                    k,
                    BpView { hits: (s.bps[k].hits + 1) as u64, ..s.bps[k] },
                ))
        }),
{
    lemma_scan_outcome(s, src, line, depth, i + 1);
}

/// The condition of a breakpoint spec is what follows its first `" if "`,
/// trimmed, whether the location before it names a file (`f.sh:13 if c`)
/// or only a line of the main script (`13 if c`); a spec without `" if "`
/// sets a breakpoint without a condition.
pub proof fn law_break_condition_kept(spec: Seq<char>, script: Seq<char>)
    ensures
        find_from(spec, " if "@, 0) matches Some(k) ==> (break_target(spec, script) matches Some(
            t,
        ) ==> t.2 == Some(trim(spec.skip(k + " if "@.len())))),
        find_from(spec, " if "@, 0) is None ==> (break_target(spec, script) matches Some(t)
            ==> t.2 is None),
{
}

/// A deleted breakpoint is gone: no breakpoint keeps its id.
pub proof fn law_deleted_breakpoint_is_gone(s: SessionView, id: u32)
    requires
        s.wf(),
    ensures
        !s.without_breakpoint(id).has_bp(id),
{
    if s.has_bp(id) {
        let i = choose|i: int| 0 <= i < s.bps.len() && s.bps[i].id == id;
        let t = s.without_breakpoint(id);
        assert forall|j: int| 0 <= j < t.bps.len() implies t.bps[j].id != id by {
            let j0 = if j < i { j } else { j + 1 };
            assert(t.bps[j] == s.bps[j0]);
            if j0 < i {
                assert(s.bps[j0].id < s.bps[i].id);
            } else {
                assert(s.bps[i].id < s.bps[j0].id);
            }
        }
    }
}

/// Setting a watch and then deleting it by the id it was given leaves the
/// watch list as it was.
pub proof fn law_watch_then_delete(s: SessionView, expr: Seq<char>)
    requires
        s.wf(),
        s.next_watch_id < u32::MAX,
    ensures
        s.with_watch(expr).without_watch(s.next_watch_id) == (SessionView {
            next_watch_id: (s.next_watch_id + 1) as u32,
            ..s
        }),
{
    let t = s.with_watch(expr);
    let id = s.next_watch_id;
    let last = s.watches.len() as int;
    assert(t.watches[last].id == id);
    assert(t.has_watch(id));
    let i = choose|i: int| 0 <= i < t.watches.len() && t.watches[i].id == id;
    if i < last {
        assert(t.watches[i] == s.watches[i]);
        assert(s.watches[i].id < s.next_watch_id);
    }
    assert(i == last);
    assert(t.watches.remove(i) =~= s.watches);
}

// --------------------------------------------------------------- prompt

/// A blank line at the prompt does what the last motion command did,
/// provided that command is stored trimmed.
pub proof fn law_enter_repeats(input: Seq<char>, last: Seq<char>, other: Seq<char>)
    requires
        trim(input).len() == 0,
        last.len() > 0,
        trim(last) == last,
    ensures
        command_of(input, last) == command_of(last, other),
{
    assert(effective_input(input, last) == last);
    assert(effective_input(last, other) == last);
}

proof fn lemma_no_ws_first_ws(s: Seq<char>, i: int)
    requires
        0 <= i <= s.len(),
        forall|j: int| 0 <= j < s.len() ==> !is_ws(#[trigger] s[j]),
    ensures
        first_ws_from(s, i) == s.len(),
    decreases s.len() - i,
{
    if i < s.len() {
        lemma_no_ws_first_ws(s, i + 1);
    }
}

/// A word without whitespace is its own trimmed form, its own verb, and has
/// no argument.
proof fn lemma_one_word(v: Seq<char>)
    requires
        v.len() > 0,
        forall|j: int| 0 <= j < v.len() ==> !is_ws(#[trigger] v[j]),
    ensures
        trim(v) == v,
        verb_of(v) == v,
        rest_of(v) == Seq::<char>::empty(),
{
    assert(!is_ws(v[0]));
    assert(ws_run_end(v, 0) == 0);
    assert(!is_ws(v[v.len() - 1]));
    assert(ws_run_start(v, 0, v.len() as int) == v.len());
    assert(v.subrange(0, v.len() as int) =~= v);
    lemma_no_ws_first_ws(v, 0);
    assert(v.take(v.len() as int) =~= v);
}

/// `"u " + digits` is its own trimmed form; its verb is `"u"` and its
/// argument the digits.
proof fn lemma_until_line(d: Seq<char>)
    requires
        d.len() > 0,
        all_digits(d),
    ensures
        trim(seq!['u', ' '] + d) == seq!['u', ' '] + d,
        verb_of(seq!['u', ' '] + d) == seq!['u'],
        rest_of(seq!['u', ' '] + d) == d,
{
    let m = seq!['u', ' '] + d;
    assert(m[0] == 'u');
    assert(ws_run_end(m, 0) == 0);
    assert(m[m.len() - 1] == d[d.len() - 1]);
    assert(is_digit(d[d.len() - 1]));
    assert(ws_run_start(m, 0, m.len() as int) == m.len());
    assert(m.subrange(0, m.len() as int) =~= m);
    assert(m[1] == ' ');
    assert(first_ws_from(m, 1) == 1);
    assert(first_ws_from(m, 0) == 1);
    assert(m.take(1) =~= seq!['u']);
    assert(m.skip(2) =~= d);
    assert forall|j: int| 0 <= j < d.len() implies !is_ws(#[trigger] d[j]) by {
        assert(is_digit(d[j]));
    }
    lemma_one_word(d);
}

/// The length and leading letters of each verb of the prompt.
proof fn lemma_verb_literals()
    ensures
        "s"@.len() == 1 && "s"@[0] == 's',
        "step"@.len() == 4 && "step"@[0] == 's',
        "n"@.len() == 1 && "n"@[0] == 'n',
        "next"@.len() == 4 && "next"@[0] == 'n',
        "f"@.len() == 1 && "f"@[0] == 'f',
        "finish"@.len() == 6 && "finish"@[0] == 'f',
        "c"@.len() == 1 && "c"@[0] == 'c',
        "continue"@.len() == 8 && "continue"@[0] == 'c',
        "u"@.len() == 1 && "u"@[0] == 'u',
        "q"@.len() == 1 && "q"@[0] == 'q',
        "quit"@.len() == 4 && "quit"@[0] == 'q',
        "b"@.len() == 1 && "b"@[0] == 'b',
        "break"@.len() == 5 && "break"@[0] == 'b',
        "bl"@.len() == 2 && "bl"@[0] == 'b' && "bl"@[1] == 'l',
        "breaks"@.len() == 6 && "breaks"@[0] == 'b',
        "d"@.len() == 1 && "d"@[0] == 'd',
        "delete"@.len() == 6 && "delete"@[0] == 'd',
        "p"@.len() == 1 && "p"@[0] == 'p',
        "print"@.len() == 5 && "print"@[0] == 'p',
        "x"@.len() == 1 && "x"@[0] == 'x',
        "eval"@.len() == 4 && "eval"@[0] == 'e',
        "!"@.len() == 1 && "!"@[0] == '!',
        "bt"@.len() == 2 && "bt"@[0] == 'b' && "bt"@[1] == 't',
        "where"@.len() == 5 && "where"@[0] == 'w',
        "l"@.len() == 1 && "l"@[0] == 'l',
        "list"@.len() == 4 && "list"@[0] == 'l',
        "h"@.len() == 1 && "h"@[0] == 'h',
        "help"@.len() == 4 && "help"@[0] == 'h',
        "?"@.len() == 1 && "?"@[0] == '?',
        "w"@.len() == 1 && "w"@[0] == 'w',
        "wl"@.len() == 2 && "wl"@[0] == 'w' && "wl"@[1] == 'l',
        "wd"@.len() == 2 && "wd"@[0] == 'w' && "wd"@[1] == 'd',
{
    reveal_strlit("s");
    reveal_strlit("step");
    reveal_strlit("n");
    reveal_strlit("next");
    reveal_strlit("f");
    reveal_strlit("finish");
    reveal_strlit("c");
    reveal_strlit("continue");
    reveal_strlit("u");
    reveal_strlit("q");
    reveal_strlit("quit");
    reveal_strlit("b");
    reveal_strlit("break");
    reveal_strlit("bl");
    reveal_strlit("breaks");
    reveal_strlit("d");
    reveal_strlit("delete");
    reveal_strlit("p");
    reveal_strlit("print");
    reveal_strlit("x");
    reveal_strlit("eval");
    reveal_strlit("!");
    reveal_strlit("bt");
    reveal_strlit("where");
    reveal_strlit("l");
    reveal_strlit("list");
    reveal_strlit("h");
    reveal_strlit("help");
    reveal_strlit("?");
    reveal_strlit("w");
    reveal_strlit("wl");
    reveal_strlit("wd");
}

/// Which long verb is spelled out by which short one.
pub open spec fn verb_alias(long: Seq<char>, short: Seq<char>) -> bool {
    ||| long == "step"@ && short == "s"@
    ||| long == "next"@ && short == "n"@
    ||| long == "finish"@ && short == "f"@
    ||| long == "continue"@ && short == "c"@
    ||| long == "quit"@ && short == "q"@
    ||| long == "break"@ && short == "b"@
    ||| long == "breaks"@ && short == "bl"@
    ||| long == "delete"@ && short == "d"@
    ||| long == "print"@ && short == "p"@
    ||| long == "eval"@ && short == "x"@
    ||| long == "where"@ && short == "bt"@
    ||| long == "list"@ && short == "l"@
    ||| long == "help"@ && short == "h"@
}

/// A long verb at the prompt means what its short form means, with the
/// same argument: `next` is `n`, `step` is `s`, `break 13` is `b 13`, and
/// so on for `finish`, `continue`, `quit`, `breaks`, `delete`, `print`,
/// `eval`, `where`, `list` and `help`.
pub proof fn law_long_verb_is_short_verb(
    t1: Seq<char>,
    t2: Seq<char>,
    last1: Seq<char>,
    last2: Seq<char>,
)
    requires
        trim(t1).len() > 0,
        trim(t2).len() > 0,
        verb_alias(verb_of(trim(t1)), verb_of(trim(t2))),
        rest_of(trim(t1)) == rest_of(trim(t2)),
    ensures
        command_of(t1, last1) == command_of(t2, last2),
{
    lemma_verb_literals();
    assert(effective_input(t1, last1) == trim(t1));
    assert(effective_input(t2, last2) == trim(t2));
}

/// `u <n>`, typed with `n` in decimal, asks to run until line `n`.
proof fn lemma_until_command(n: u32, last: Seq<char>)
    ensures
        command_of("u "@ + decimal(n as nat), last) == CommandView::Until(Some(n)),
{
    reveal_strlit("s");
    reveal_strlit("step");
    reveal_strlit("n");
    reveal_strlit("next");
    reveal_strlit("f");
    reveal_strlit("finish");
    reveal_strlit("c");
    reveal_strlit("continue");
    reveal_strlit("u");
    reveal_strlit("u ");
    let m = "u "@ + decimal(n as nat);
    lemma_decimal(n as nat);
    assert("u "@ =~= seq!['u', ' ']);
    lemma_until_line(decimal(n as nat));
    law_parse_u32_decimal(n);
    assert(effective_input(m, last) == m);
    let v = verb_of(m);
    assert(v =~= "u"@);
    assert(v.len() == 1 && v[0] == 'u');
    assert(v != "s"@) by {
        assert("s"@[0] == 's');
    }
    assert(v != "n"@) by {
        assert("n"@[0] == 'n');
    }
    assert(v != "f"@) by {
        assert("f"@[0] == 'f');
    }
    assert(v != "c"@) by {
        assert("c"@[0] == 'c');
    }
    assert(v != "step"@ && v != "next"@ && v != "finish"@ && v != "continue"@);
    assert(rest_of(m) == decimal(n as nat));
}

/// After a motion command, a blank line at the prompt gives that command
/// again (`<enter>` repeats the last motion).
pub proof fn law_enter_repeats_motion(
    s: SessionView,
    c: CommandView,
    src: Seq<char>,
    line: u32,
    depth: u32,
    blank: Seq<char>,
)
    requires
        c is Step || c is Next || c is Finish || c is Continue || c matches CommandView::Until(
            Some(_),
        ),
        trim(blank).len() == 0,
    ensures
        command_of(blank, reply_of(s, c, src, line, depth).0.last_motion) == c,
{
    reveal_strlit("s");
    reveal_strlit("step");
    reveal_strlit("n");
    reveal_strlit("next");
    reveal_strlit("f");
    reveal_strlit("finish");
    reveal_strlit("c");
    reveal_strlit("continue");
    reveal_strlit("u ");
    let m = reply_of(s, c, src, line, depth).0.last_motion;
    assert(effective_input(blank, m) == m);
    match c {
        CommandView::Until(Some(n)) => {
            lemma_until_command(n, m);
            lemma_decimal(n as nat);
            assert("u "@ =~= seq!['u', ' ']);
            lemma_until_line(decimal(n as nat));
            assert(effective_input(m, m) == m);
        },
        _ => {
            assert(m.len() > 0);
            lemma_one_word(m);
        },
    }
}

/// `u <n>` runs to line `n` of the file the script is stopped in, whatever
/// the session's main script: the script is let go, and from then on the
/// run mode stops exactly at line `n` of that file (of any file that
/// names it), at any depth. Arriving there stops unless a breakpoint set
/// there claims the stop; arriving at a line of any other file, or at
/// another line, goes on unless a breakpoint stops it.
pub proof fn law_until_runs_to_current_file(
    s: SessionView,
    n: u32,
    src: Seq<char>,
    line: u32,
    depth: u32,
)
    ensures
        ({
            let (t, r) = reply_of(
                s,
                command_of("u "@ + decimal(n as nat), s.last_motion),
                src,
                line,
                depth,
            );
            &&& r == ReplyView::Resume
            &&& t.mode == ModeView::Until(src, n)
            &&& forall|f: Seq<char>, l: u32, d: u32|
                #[trigger] motion_stops(t.mode, f, l, d) <==> (l == n && same_script(f, src))
            &&& forall|d: u32| #[trigger] motion_stops(t.mode, src, n, d)
            &&& forall|d: u32, stub: Seq<char>|
                !t.detached && !ends_with(src, stub) && first_at(t.bps, src, n, 0) is None
                    ==> #[trigger] t.arrival(src, n, d, stub).1 == VerdictView::Stop(None)
            &&& forall|f: Seq<char>, l: u32, d: u32, stub: Seq<char>|
                !(l == n && same_script(f, src)) && first_at(t.bps, f, l, 0) is None
                    ==> #[trigger] t.arrival(f, l, d, stub).1 == VerdictView::Go
        }),
{
    lemma_until_command(n, s.last_motion);
    law_paths_match_reflexive(src);
    let t = reply_of(s, command_of("u "@ + decimal(n as nat), s.last_motion), src, line, depth).0;
    assert forall|f: Seq<char>, l: u32, d: u32, stub: Seq<char>|
        !(l == n && same_script(f, src)) && first_at(t.bps, f, l, 0) is None implies
        #[trigger] t.arrival(f, l, d, stub).1 == VerdictView::Go by {
        assert(!motion_stops(t.mode, f, l, d));
    }
}

// ---------------------------------------------------------- command line

/// The length and second letter of each option of the command line.
proof fn lemma_option_literals()
    ensures
        "-h"@.len() == 2 && "-h"@[1] == 'h',
        "--help"@.len() == 6,
        "-V"@.len() == 2 && "-V"@[1] == 'V',
        "--version"@.len() == 9,
        "-b"@.len() == 2 && "-b"@[1] == 'b',
        "--break"@.len() == 7,
        "--bash"@.len() == 6,
        "-r"@.len() == 2 && "-r"@[1] == 'r',
        "--run"@.len() == 5,
        "--no-color"@.len() == 10,
{
    reveal_strlit("-h");
    reveal_strlit("--help");
    reveal_strlit("-V");
    reveal_strlit("--version");
    reveal_strlit("-b");
    reveal_strlit("--break");
    reveal_strlit("--bash");
    reveal_strlit("-r");
    reveal_strlit("--run");
    reveal_strlit("--no-color");
}

/// Which long option is spelled out by which short one.
pub open spec fn option_alias(long: Seq<char>, short: Seq<char>) -> bool {
    ||| long == "--help"@ && short == "-h"@
    ||| long == "--version"@ && short == "-V"@
    ||| long == "--break"@ && short == "-b"@
    ||| long == "--run"@ && short == "-r"@
}

/// What the arguments from `j` on mean depends on those arguments alone.
proof fn lemma_cli_rest_only(a1: Seq<Seq<char>>, a2: Seq<Seq<char>>, j: int, o: OptsView)
    requires
        a1.len() == a2.len(),
        0 <= j,
        forall|k: int| j <= k < a1.len() ==> a1[k] == a2[k],
    ensures
        cli_from(a1, j, o) == cli_from(a2, j, o),
    decreases a1.len() - j,
{
    if j < a1.len() {
        let a = a1[j];
        assert(a2[j] == a);
        if j + 1 < a1.len() {
            assert(a1[j + 1] == a2[j + 1]);
            lemma_cli_rest_only(a1, a2, j + 2, OptsView { breaks: o.breaks.push(a1[j + 1]), ..o });
            lemma_cli_rest_only(a1, a2, j + 2, OptsView { bash: a1[j + 1], ..o });
        }
        lemma_cli_rest_only(a1, a2, j + 1, OptsView { run: true, ..o });
        lemma_cli_rest_only(a1, a2, j + 1, OptsView { color: false, ..o });
        assert(a1.skip(j + 1) =~= a2.skip(j + 1));
    }
}

/// A long option on the command line means what its short form means:
/// wherever the arguments are read as options, `--run` is `-r`, `--break`
/// is `-b` (and takes the next argument as its spec), `--help` is `-h` and
/// `--version` is `-V`.
pub proof fn law_long_option_is_short_option(
    args: Seq<Seq<char>>,
    i: int,
    o: OptsView,
    long: Seq<char>,
    short: Seq<char>,
)
    requires
        0 <= i < args.len(),
        option_alias(long, short),
    ensures
        cli_from(args.update(i, long), i, o) == cli_from(args.update(i, short), i, o),
{
    lemma_option_literals();
    let a1 = args.update(i, long);
    let a2 = args.update(i, short);
    assert(a1[i] == long && a2[i] == short);
    if i + 1 < args.len() {
        assert(a1[i + 1] == a2[i + 1]);
        lemma_cli_rest_only(a1, a2, i + 2, OptsView { breaks: o.breaks.push(a1[i + 1]), ..o });
    }
    lemma_cli_rest_only(a1, a2, i + 1, OptsView { run: true, ..o });
}

/// The whole command line means the same with a long option first as with
/// its short form first: `--run demo.sh` is `-r demo.sh`.
pub proof fn law_long_option_first(
    rest: Seq<Seq<char>>,
    color: bool,
    long: Seq<char>,
    short: Seq<char>,
)
    requires
        option_alias(long, short),
    ensures
        cli_of(seq![long] + rest, color) == cli_of(seq![short] + rest, color),
{
    let args = seq![short] + rest;
    assert(args.update(0, long) =~= seq![long] + rest);
    assert(args.update(0, short) =~= args);
    law_long_option_is_short_option(
        args,
        0,
        OptsView {
            script: Seq::empty(),
            script_args: Seq::empty(),
            breaks: Seq::empty(),
            run: false,
            bash: "bash"@,
            color,
        },
        long,
        short,
    );
}

// ------------------------------------------------------------- protocol

proof fn lemma_index_of_at(s: Seq<char>, c: char, i: int, k: int)
    requires
        0 <= i <= k < s.len(),
        s[k] == c,
        forall|j: int| i <= j < k ==> s[j] != c,
    ensures
        index_of_from(s, c, i) == k,
    decreases k - i,
{
    if i < k {
        lemma_index_of_at(s, c, i + 1, k);
    }
}

#[verifier::rlimit(40)]
/// What the stub reports before a command is read back as it was sent:
/// `STOP\t<file>\t<line>\t<depth>\t<command>`, for every file name without
/// a tab, every line, depth and command.
pub proof fn law_stop_roundtrip(src: Seq<char>, line: u32, depth: u32, cmd: Seq<char>)
    requires
        forall|i: int| 0 <= i < src.len() ==> src[i] != '\t',
    ensures
        stop_of(
            STOP_PREFIX@ + src + seq!['\t'] + decimal(line as nat) + seq!['\t'] + decimal(
                depth as nat,
            ) + seq!['\t'] + cmd,
        ) == Some(StopView { src, line, depth, cmd }),
{
    let dl = decimal(line as nat);
    let dd = decimal(depth as nat);
    let rest = src + seq!['\t'] + dl + seq!['\t'] + dd + seq!['\t'] + cmd;
    let msg = STOP_PREFIX@ + rest;
    assert(msg == STOP_PREFIX@ + src + seq!['\t'] + dl + seq!['\t'] + dd + seq!['\t'] + cmd) by {
        assert(msg =~= STOP_PREFIX@ + src + seq!['\t'] + dl + seq!['\t'] + dd + seq!['\t'] + cmd);
    }
    assert(msg.take(STOP_PREFIX@.len() as int) =~= STOP_PREFIX@);
    assert(starts_with(msg, STOP_PREFIX@));
    assert(msg.skip(STOP_PREFIX@.len() as int) =~= rest);
    lemma_decimal(line as nat);
    lemma_decimal(depth as nat);
    let k1 = src.len() as int;
    let k2 = k1 + 1 + dl.len();
    let k3 = k2 + 1 + dd.len();
    assert forall|j: int| 0 <= j < k1 implies rest[j] != '\t' by {
        assert(rest[j] == src[j]);
    }
    assert(rest[k1] == '\t');
    lemma_index_of_at(rest, '\t', 0, k1);
    assert forall|j: int| k1 + 1 <= j < k2 implies rest[j] != '\t' by {
        assert(rest[j] == dl[j - k1 - 1]);
        assert(is_digit(dl[j - k1 - 1]));
    }
    assert(rest[k2] == '\t');
    lemma_index_of_at(rest, '\t', k1 + 1, k2);
    assert forall|j: int| k2 + 1 <= j < k3 implies rest[j] != '\t' by {
        assert(rest[j] == dd[j - k2 - 1]);
        assert(is_digit(dd[j - k2 - 1]));
    }
    assert(rest[k3] == '\t');
    lemma_index_of_at(rest, '\t', k2 + 1, k3);
    assert(rest.take(k1) =~= src);
    assert(rest.subrange(k1 + 1, k2) =~= dl);
    assert(rest.subrange(k2 + 1, k3) =~= dd);
    assert(rest.skip(k3 + 1) =~= cmd);
    law_parse_u32_decimal(line);
    law_parse_u32_decimal(depth);
}

proof fn lemma_collect_pieces(c: Seq<char>, t: Seq<char>)
    ensures
        collect_lines(c, pieces(t)) == c + t + seq!['\n'],
        forall|i: int, m: int|
            0 <= i < pieces(t).len() && 0 <= m < pieces(t)[i].len() ==> #[trigger] pieces(t)[i][m]
                != '\n',
    decreases t.len(),
{
    lemma_index_of_from(t, '\n', 0);
    let k = index_of_from(t, '\n', 0);
    if k < t.len() {
        let rest = t.skip(k + 1);
        lemma_collect_pieces(c + t.take(k) + seq!['\n'], rest);
        let ps = pieces(t);
        assert(ps.drop_first() =~= pieces(rest));
        assert(ps[0] == t.take(k));
        assert(c + t.take(k) + seq!['\n'] + rest + seq!['\n'] =~= c + t + seq!['\n']);
        assert forall|i: int, m: int| 0 <= i < ps.len() && 0 <= m < ps[i].len() implies #[trigger] ps[i][m]
            != '\n' by {
            if i > 0 {
                assert(ps[i] == pieces(rest)[i - 1]);
                assert(pieces(rest)[i - 1][m] != '\n');
            } else {
                assert(ps[0][m] == t[m]);
            }
        }
    } else {
        let ps = pieces(t);
        assert(ps.drop_first() =~= Seq::<Seq<char>>::empty());
        assert(collect_lines(c + t + seq!['\n'], ps.drop_first()) == c + t + seq!['\n']);
    }
}

proof fn lemma_status_reads_back(status: i32)
    ensures
        parse_i32(trim(seq![' '] + signed_decimal(status as int))) == Some(status),
{
    let sd = signed_decimal(status as int);
    let n: nat = if status < 0 { (-status) as nat } else { status as nat };
    lemma_decimal(n);
    let d = decimal(n);
    assert(is_digit(d[0]) && is_digit(d[d.len() - 1]));
    let s = seq![' '] + sd;
    assert(sd.len() > 0);
    assert(s[s.len() - 1] == d[d.len() - 1]);
    assert(!is_ws(s[1]));
    assert(ws_run_end(s, 1) == 1);
    assert(ws_run_end(s, 0) == 1);
    assert(ws_run_start(s, 1, s.len() as int) == s.len());
    assert(s.subrange(1, s.len() as int) =~= sd);
    if status < 0 {
        assert(sd.drop_first() =~= d);
        assert(unsigned_digits(d) == Some(n as int));
    } else {
        assert(drop_plus(sd) == sd);
        assert(unsigned_digits(d) == Some(n as int));
    }
}

/// What the stub writes for an `EVAL` or `BT` reads back unchanged: output
/// `t`, then the extra newline, then the sentinel and the status. Each line
/// `recv` takes off the socket (line ending stripped) is one piece of `t`;
/// the frame collects them, and at the sentinel hands back `t` and the
/// status. This holds when no line of `t` begins with the sentinel or ends
/// with `'\r'`.
pub proof fn law_frame_roundtrip(t: Seq<char>, status: i32)
    requires
        forall|i: int|
            0 <= i < pieces(t).len() ==> !starts_with(#[trigger] pieces(t)[i], SENTINEL@) && !(
            pieces(t)[i].len() > 0 && pieces(t)[i].last() == '\r'),
    ensures
        forall|i: int|
            0 <= i < pieces(t).len() ==> strip_line_end(#[trigger] pieces(t)[i] + seq!['\n'])
                == pieces(t)[i],
        collect_lines(Seq::empty(), pieces(t)) == t + seq!['\n'],
        frame_output(t + seq!['\n']) == t,
        ({
            let last = strip_line_end(
                SENTINEL@ + seq![' '] + signed_decimal(status as int) + seq!['\n'],
            );
            &&& starts_with(last, SENTINEL@)
            &&& frame_status(last.skip(SENTINEL@.len() as int)) == status
        }),
{
    lemma_collect_pieces(Seq::empty(), t);
    assert(Seq::<char>::empty() + t + seq!['\n'] =~= t + seq!['\n']);
    assert((t + seq!['\n']).drop_last() =~= t);
    assert forall|i: int| 0 <= i < pieces(t).len() implies strip_line_end(
        #[trigger] pieces(t)[i] + seq!['\n'],
    ) == pieces(t)[i] by {
        let p = pieces(t)[i];
        let x = p + seq!['\n'];
        assert(x.drop_last() =~= p);
        assert(x.last() == '\n');
        assert(strip_line_end(x) == strip_line_end(p));
        if p.len() > 0 {
            assert(p[p.len() - 1] == pieces(t)[i][p.len() - 1]);
            assert(p.last() != '\n');
        }
    }
    lemma_status_reads_back(status);
    let sd = signed_decimal(status as int);
    let n: nat = if status < 0 { (-status) as nat } else { status as nat };
    lemma_decimal(n);
    let d = decimal(n);
    assert(is_digit(d[d.len() - 1]));
    let body = SENTINEL@ + seq![' '] + sd;
    assert(body[body.len() - 1] == d[d.len() - 1]);
    let x = body + seq!['\n'];
    assert(x.drop_last() =~= body);
    assert(x.last() == '\n');
    assert(strip_line_end(x) == strip_line_end(body));
    assert(body.last() != '\n' && body.last() != '\r');
    assert(strip_line_end(body) == body);
    assert(body.take(SENTINEL@.len() as int) =~= SENTINEL@);
    assert(body.skip(SENTINEL@.len() as int) =~= seq![' '] + sd);
}

/// A request to run code in the script never breaks the line protocol:
/// the code, once flattened, holds no newline.
pub proof fn law_eval_request_one_line(code: Seq<char>)
    ensures
        forall|i: int| 0 <= i < one_line(code).len() ==> #[trigger] one_line(code)[i] != '\n',
    decreases code.len(),
{
    if code.len() > 0 {
        law_eval_request_one_line(code.drop_last());
        let p = one_line(code.drop_last());
        if code.last() == '\n' {
            assert forall|i: int| 0 <= i < one_line(code).len() implies #[trigger] one_line(
                code,
            )[i] != '\n' by {
                if i < p.len() {
                    assert(one_line(code)[i] == p[i]);
                }
            }
        } else {
            assert forall|i: int| 0 <= i < one_line(code).len() implies #[trigger] one_line(
                code,
            )[i] != '\n' by {
                if i < p.len() {
                    assert(one_line(code)[i] == p[i]);
                }
            }
        }
    }
}

/// A source listing shows at most nine lines, all of them in the file.
pub proof fn law_listing_window(center: u32, total: int)
    requires
        0 <= total,
    ensures
        window_from(center) >= 1,
        window_to(center, total) <= total,
        window_to(center, total) - window_from(center) + 1 <= 9,
{
}

// ----------------------------------------------------------------- text

/// Trimming twice is trimming once.
pub proof fn law_trim_idempotent(s: Seq<char>)
    ensures
        trim(trim(s)) == trim(s),
{
    let lo = ws_run_end(s, 0);
    lemma_ws_run_end(s, 0);
    let hi = ws_run_start(s, lo, s.len() as int);
    lemma_ws_run_start(s, lo, s.len() as int);
    let t = s.subrange(lo, hi);
    lemma_ws_run_end(t, 0);
    if t.len() > 0 {
        assert(t[0] == s[lo]);
        assert(!is_ws(t[0]));
        assert(ws_run_end(t, 0) == 0);
        lemma_ws_run_start(t, 0, t.len() as int);
        assert(t[t.len() - 1] == s[hi - 1]);
        assert(!is_ws(t[t.len() - 1]));
        assert(ws_run_start(t, 0, t.len() as int) == t.len());
        assert(t.subrange(0, t.len() as int) =~= t);
    } else {
        assert(t.subrange(0, 0) =~= t);
        lemma_ws_run_start(t, ws_run_end(t, 0), 0);
    }
}

} // verus!
