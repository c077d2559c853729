use vstd::prelude::*;
use vstd::string::*;
use crate::messages::{
    bad_spec_msg, bad_spec_string, bp_added_msg, bp_added_string, bp_list_msg, bp_list_string,
    detach_msg, detach_string, exit_status_msg, exit_status_string, id_msg, id_string, inspect_code, inspect_code_string, opt_view,
    unknown_msg, unknown_string, source_line_msg, source_line_string,
    stop_command_msg, stop_command_string, stop_header_msg, stop_header_string, unreadable_msg,
    unreadable_string, watch_code, watch_code_string, watch_list_msg, watch_list_string,
    watch_msg, watch_string, watch_value_msg, watch_value_string,
};
use crate::command::{command_of, parse_command, Command, CommandView};
use crate::numbers::{decimal, decimal_chars, parse_u32, parse_u32_chars};
use crate::palette::Pal;
use crate::paths::{paths_match, same_script};
use crate::text::{
    char_views, chars_of, copy_opt, ends_with, has_suffix, push_chars, words, words_of, find, find_from, lemma_find_from, lemma_rfind_before, rfind,
    rfind_before, slice_of, string_from, string_of, string_views, trim, trim_chars,
};

verus! {

// ------------------------------------------------------------------ model

/// A place where the script stops, optionally only when a bash condition
/// holds in the live script.
pub struct Breakpoint {
    pub id: u32,
    pub file: String,
    pub line: u32,
    pub cond: Option<String>,
    pub hits: u64,
}

pub struct BpView {
    pub id: u32,
    pub file: Seq<char>,
    pub line: u32,
    pub cond: Option<Seq<char>>,
    pub hits: u64,
}

impl View for Breakpoint {
    type V = BpView;

    open spec fn view(&self) -> BpView {
        BpView {
            id: self.id,
            file: self.file@,
            line: self.line,
            cond: opt_view(self.cond),
            hits: self.hits,
        }
    }
}

/// A bash expression shown at every stop.
pub struct Watch {
    pub id: u32,
    pub expr: String,
}

pub struct WatchView {
    pub id: u32,
    pub expr: Seq<char>,
}

impl View for Watch {
    type V = WatchView;

    open spec fn view(&self) -> WatchView {
        WatchView { id: self.id, expr: self.expr@ }
    }
}

/// How far the script runs before the next stop.
pub enum RunMode {
    /// Stop at the next command, anywhere.
    Step,
    /// Stop at the next command at this call depth or shallower.
    Next(u32),
    /// Stop once the call at this depth has returned.
    Finish(u32),
    /// Stop only at breakpoints.
    Continue,
    /// Stop at this line of this file (or at a breakpoint), once.
    Until(String, u32),
}

pub enum ModeView {
    Step,
    Next(u32),
    Finish(u32),
    Continue,
    Until(Seq<char>, u32),
}

impl View for RunMode {
    type V = ModeView;

    open spec fn view(&self) -> ModeView {
        match self {
            RunMode::Step => ModeView::Step,
            RunMode::Next(d) => ModeView::Next(*d),
            RunMode::Finish(d) => ModeView::Finish(*d),
            RunMode::Continue => ModeView::Continue,
            RunMode::Until(f, l) => ModeView::Until(f@, *l),
        }
    }
}

/// The debugger's state between two messages of the script.
pub struct Session {
    pub pal: Pal,
    pub bps: Vec<Breakpoint>,
    pub next_bp_id: u32,
    pub watches: Vec<Watch>,
    pub next_watch_id: u32,
    pub mode: RunMode,
    pub last_motion: String,
    pub detached: bool,
    pub script: String,
}

pub struct SessionView {
    pub pal: Pal,
    pub bps: Seq<BpView>,
    pub next_bp_id: u32,
    pub watches: Seq<WatchView>,
    pub next_watch_id: u32,
    pub mode: ModeView,
    pub last_motion: Seq<char>,
    pub detached: bool,
    pub script: Seq<char>,
}

impl View for Session {
    type V = SessionView;

    open spec fn view(&self) -> SessionView {
        SessionView {
            pal: self.pal,
            bps: self.bps@.map_values(|b: Breakpoint| b@),
            next_bp_id: self.next_bp_id,
            watches: self.watches@.map_values(|w: Watch| w@),
            next_watch_id: self.next_watch_id,
            mode: self.mode@,
            last_motion: self.last_motion@,
            detached: self.detached,
            script: self.script@,
        }
    }
}

impl SessionView {
    /// Breakpoint ids increase along the list and stay below the next id to
    /// hand out; the same holds of watches.
    pub open spec fn wf(self) -> bool {
        &&& forall|i: int, j: int|
            0 <= i < j < self.bps.len() ==> #[trigger] self.bps[i].id < #[trigger] self.bps[j].id
        &&& forall|i: int| 0 <= i < self.bps.len() ==> #[trigger] self.bps[i].id < self.next_bp_id
        &&& forall|i: int, j: int|
            0 <= i < j < self.watches.len() ==> #[trigger] self.watches[i].id
                < #[trigger] self.watches[j].id
        &&& forall|i: int|
            0 <= i < self.watches.len() ==> #[trigger] self.watches[i].id < self.next_watch_id
    }

    /// The session after `b <spec>`: one more breakpoint, with the next id,
    /// when the spec parses; unchanged otherwise.
    pub open spec fn with_breakpoint(self, spec: Seq<char>) -> SessionView {
        match break_target(spec, self.script) {
            Some(t) => SessionView {
                bps: self.bps.push(
                    BpView { id: self.next_bp_id, file: t.0, line: t.1, cond: t.2, hits: 0 },
                ),
                next_bp_id: (self.next_bp_id + 1) as u32,
                ..self
            },
            None => self,
        }
    }

    /// What `b <spec>` prints.
    pub open spec fn break_lines(self, spec: Seq<char>) -> Seq<Seq<char>> {
        match break_target(spec, self.script) {
            Some(t) => seq![bp_added_msg(self.pal, self.next_bp_id, t.0, t.1, t.2)],
            None => seq![bad_spec_msg(self.pal, spec), EXPECTED_SPEC@],
        }
    }

    pub open spec fn has_bp(self, id: u32) -> bool {
        exists|i: int| 0 <= i < self.bps.len() && self.bps[i].id == id
    }

    /// The session after `d <id>`: without breakpoint `id`.
    pub open spec fn without_breakpoint(self, id: u32) -> SessionView {
        if self.has_bp(id) {
            let i = choose|i: int| 0 <= i < self.bps.len() && self.bps[i].id == id;
            SessionView { bps: self.bps.remove(i), ..self }
        } else {
            self
        }
    }

    /// What `d <id>` prints.
    pub open spec fn bp_delete_msg(self, id: u32) -> Seq<char> {
        if self.has_bp(id) {
            id_msg("deleted breakpoint #"@, id)
        } else {
            id_msg("no breakpoint #"@, id)
        }
    }

    /// What `bl` prints.
    pub open spec fn bp_lines(self) -> Seq<Seq<char>> {
        if self.bps.len() == 0 {
            seq!["no breakpoints"@]
        } else {
            self.bps.map_values(
                |b: BpView| bp_list_msg(self.pal, b.id, b.file, b.line, b.cond, b.hits),
            )
        }
    }

    /// The session after `w <expr>`: one more watch, with the next id.
    pub open spec fn with_watch(self, expr: Seq<char>) -> SessionView {
        SessionView {
            watches: self.watches.push(WatchView { id: self.next_watch_id, expr }),
            next_watch_id: (self.next_watch_id + 1) as u32,
            ..self
        }
    }

    pub open spec fn has_watch(self, id: u32) -> bool {
        exists|i: int| 0 <= i < self.watches.len() && self.watches[i].id == id
    }

    /// The session after `wd <id>`: without watch `id`.
    pub open spec fn without_watch(self, id: u32) -> SessionView {
        if self.has_watch(id) {
            let i = choose|i: int| 0 <= i < self.watches.len() && self.watches[i].id == id;
            SessionView { watches: self.watches.remove(i), ..self }
        } else {
            self
        }
    }

    /// What `wd <id>` prints.
    pub open spec fn watch_delete_msg(self, id: u32) -> Seq<char> {
        if self.has_watch(id) {
            id_msg("deleted watch #"@, id)
        } else {
            id_msg("no watch #"@, id)
        }
    }

    /// The session with one more hit counted on breakpoint `i`.
    pub open spec fn with_hit(self, i: int) -> SessionView {
        SessionView {
            bps: self.bps.update(i, BpView { hits: (self.bps[i].hits + 1) as u64, ..self.bps[i] }),
            ..self
        }
    }

    /// The session once the script reached `line` of `src` at `depth`: an
    /// `until` target that is reached there is disarmed.
    pub open spec fn disarm(self, src: Seq<char>, line: u32, depth: u32) -> SessionView {
        if self.mode is Until && motion_stops(self.mode, src, line, depth) {
            SessionView { mode: ModeView::Continue, ..self }
        } else {
            self
        }
    }

    /// Stop or go, once it is known which breakpoint fired (if any).
    pub open spec fn settle(self, src: Seq<char>, line: u32, depth: u32, bp: Option<u32>) -> (
        SessionView,
        VerdictView,
    ) {
        (
            self.disarm(src, line, depth),
            if bp is Some || motion_stops(self.mode, src, line, depth) {
                VerdictView::Stop(bp)
            } else {
                VerdictView::Go
            },
        )
    }

    /// Tries the breakpoints set at `line` of `src` from index `from` on, in
    /// order: the first without a condition fires; at the first with one,
    /// the condition must be run first.
    pub open spec fn scan(self, src: Seq<char>, line: u32, depth: u32, from: int) -> (
        SessionView,
        VerdictView,
    ) {
        match first_at(self.bps, src, line, from) {
            Some(i) => match self.bps[i].cond {
                Some(c) => (self, VerdictView::Check(i, c)),
                None => self.with_hit(i).settle(src, line, depth, Some(self.bps[i].id)),
            },
            None => self.settle(src, line, depth, None),
        }
    }

    /// The verdict on the stub's report that it is about to run a command at
    /// `line` of `src`, at call depth `depth`.
    pub open spec fn arrival(self, src: Seq<char>, line: u32, depth: u32, stub: Seq<char>) -> (
        SessionView,
        VerdictView,
    ) {
        if self.detached || ends_with(src, stub) {
            (self, VerdictView::Go)
        } else {
            self.scan(src, line, depth, 0)
        }
    }

    /// The verdict once the condition of breakpoint `i` ran with `status`:
    /// 0 fires it, anything else moves on to the next breakpoint there.
    pub open spec fn after_condition(
        self,
        src: Seq<char>,
        line: u32,
        depth: u32,
        i: int,
        status: i32,
    ) -> (SessionView, VerdictView) {
        if status == 0 {
            self.with_hit(i).settle(src, line, depth, Some(self.bps[i].id))
        } else {
            self.scan(src, line, depth, i + 1)
        }
    }

    /// No breakpoint at `line` of `src` has run out of hits to count.
    pub open spec fn hits_room(self, src: Seq<char>, line: u32) -> bool {
        forall|i: int|
            0 <= i < self.bps.len() && bp_is_at(#[trigger] self.bps[i], src, line)
                ==> self.bps[i].hits < u64::MAX
    }

    /// What `wl` prints.
    pub open spec fn watch_lines(self) -> Seq<Seq<char>> {
        if self.watches.len() == 0 {
            seq!["no watches"@]
        } else {
            self.watches.map_values(|w: WatchView| watch_list_msg(w.id, w.expr))
        }
    }
}

/// What the script is told, or what is printed, in answer to a command.
pub enum Reply {
    /// Let the script run on (`GO`).
    Resume,
    /// Kill the script and quit.
    Quit,
    /// Print these lines.
    Say(Vec<String>),
    /// Run each piece of code in the script and print what it writes.
    Inspect(Vec<String>),
    /// Run the code in the script; print what it writes, and its exit
    /// status when that is not 0.
    Run(String),
    /// Print the script's call stack.
    Backtrace,
    /// List the source of the file around the center line, marking the
    /// current line.
    Source(String, u32, u32),
}

pub enum ReplyView {
    Resume,
    Quit,
    Say(Seq<Seq<char>>),
    Inspect(Seq<Seq<char>>),
    Run(Seq<char>),
    Backtrace,
    Source(Seq<char>, u32, u32),
}

impl View for Reply {
    type V = ReplyView;

    open spec fn view(&self) -> ReplyView {
        match self {
            Reply::Resume => ReplyView::Resume,
            Reply::Quit => ReplyView::Quit,
            Reply::Say(v) => ReplyView::Say(string_views(v@)),
            Reply::Inspect(v) => ReplyView::Inspect(string_views(v@)),
            Reply::Run(s) => ReplyView::Run(s@),
            Reply::Backtrace => ReplyView::Backtrace,
            Reply::Source(f, c, l) => ReplyView::Source(f@, *c, *l),
        }
    }
}

/// What to do with a stop message of the stub.
pub enum Verdict {
    /// Let the command run (`GO`).
    Go,
    /// Run the condition of breakpoint `i` in the script, and hand its exit
    /// status to `Session::condition_status`.
    Check(usize, String),
    /// Stop here and ask the user; the breakpoint that fired, if one did.
    Stop(Option<u32>),
}

pub enum VerdictView {
    Go,
    Check(int, Seq<char>),
    Stop(Option<u32>),
}

impl View for Verdict {
    type V = VerdictView;

    open spec fn view(&self) -> VerdictView {
        match self {
            Verdict::Go => VerdictView::Go,
            Verdict::Check(i, c) => VerdictView::Check(*i as int, c@),
            Verdict::Stop(b) => VerdictView::Stop(*b),
        }
    }
}

pub const USAGE_BREAK: &'static str = "usage: b <line> | b <file>:<line> [if <bash-cond>]";

pub const USAGE_DELETE: &'static str = "usage: d <breakpoint-id>";

pub const USAGE_PRINT: &'static str = "usage: p <var> [var...]";

pub const USAGE_EVAL: &'static str = "usage: x <bash code>   (runs inside the live script)";

pub const USAGE_UNTIL: &'static str = "usage: u <line>";

pub const USAGE_WATCH: &'static str = "usage: w <bash-expr>";

pub const USAGE_DELETE_WATCH: &'static str = "usage: wd <watch-id>";

pub const HELP: &'static str = "motion:
  s, step        stop at the next command, anywhere (steps into functions)
  n, next        stop at the next command at this depth or shallower
  f, finish      run until the current function returns
  c, continue    run until a breakpoint
  u <line>       run until that line of the current file (one-shot)
  <enter>        repeat the last motion command
breakpoints:
  b <line>                        break in the main script
  b <file>:<line> [if <cond>]     cond is raw bash, e.g.  b 13 if (( count == 2 ))
  bl                              list breakpoints        d <id>   delete one
watches (shown at every stop):
  w <expr>       watch a bash expression, e.g.  w $count
  wl             list watches       wd <id>    delete one
inspect / mutate (all run inside the live script):
  p <var>...     declare -p a variable (arrays too)
  x <code>       run any bash code — assignments stick:  x count=99
  !<code>        same, shorthand:  !name=world
  bt             backtrace          l [line]   show source
  q              kill the script and quit";

/// Whether a command that hands out an id still has one to hand out.
pub open spec fn id_room(s: SessionView, c: CommandView) -> bool {
    match c {
        CommandView::Break(r) => r.len() > 0 && break_target(r, s.script) is Some
            ==> s.next_bp_id < u32::MAX,
        CommandView::Watch(r) => r.len() > 0 ==> s.next_watch_id < u32::MAX,
        _ => true,
    }
}

/// What a command does to the session stopped at `line` of `src`, at call
/// depth `depth`, and what it answers.
pub open spec fn reply_of(s: SessionView, c: CommandView, src: Seq<char>, line: u32, depth: u32) -> (
    SessionView,
    ReplyView,
) {
    match c {
        CommandView::Step => (
            SessionView { mode: ModeView::Step, last_motion: "s"@, ..s },
            ReplyView::Resume,
        ),
        CommandView::Next => (
            SessionView { mode: ModeView::Next(depth), last_motion: "n"@, ..s },
            ReplyView::Resume,
        ),
        CommandView::Finish => (
            SessionView { mode: ModeView::Finish(depth), last_motion: "f"@, ..s },
            ReplyView::Resume,
        ),
        CommandView::Continue => (
            SessionView { mode: ModeView::Continue, last_motion: "c"@, ..s },
            ReplyView::Resume,
        ),
        CommandView::Until(Some(n)) => (
            SessionView {
                mode: ModeView::Until(src, n),
                last_motion: "u "@ + decimal(n as nat),
                ..s
            },
            ReplyView::Resume,
        ),
        CommandView::Until(None) => (s, ReplyView::Say(seq![USAGE_UNTIL@])),
        CommandView::Quit => (s, ReplyView::Quit),
        CommandView::Break(r) => if r.len() == 0 {
            (s, ReplyView::Say(seq![USAGE_BREAK@]))
        } else {
            (s.with_breakpoint(r), ReplyView::Say(s.break_lines(r)))
        },
        CommandView::ListBreaks => (s, ReplyView::Say(s.bp_lines())),
        CommandView::Delete(Some(id)) => (
            s.without_breakpoint(id),
            ReplyView::Say(seq![s.bp_delete_msg(id)]),
        ),
        CommandView::Delete(None) => (s, ReplyView::Say(seq![USAGE_DELETE@])),
        CommandView::Print(r) => if r.len() == 0 {
            (s, ReplyView::Say(seq![USAGE_PRINT@]))
        } else {
            (s, ReplyView::Inspect(words(r).map_values(|w: Seq<char>| inspect_code(w))))
        },
        CommandView::Eval(r) => if r.len() == 0 {
            (s, ReplyView::Say(seq![USAGE_EVAL@]))
        } else {
            (s, ReplyView::Run(r))
        },
        CommandView::Backtrace => (s, ReplyView::Backtrace),
        CommandView::List(n) => (
            s,
            ReplyView::Source(
                src,
                match n {
                    Some(c) => c,
                    None => line,
                },
                line,
            ),
        ),
        CommandView::Help => (s, ReplyView::Say(seq![HELP@])),
        CommandView::Watch(r) => if r.len() == 0 {
            (s, ReplyView::Say(seq![USAGE_WATCH@]))
        } else {
            (s.with_watch(r), ReplyView::Say(seq![watch_msg(s.next_watch_id, r)]))
        },
        CommandView::ListWatches => (s, ReplyView::Say(s.watch_lines())),
        CommandView::DeleteWatch(Some(id)) => (
            s.without_watch(id),
            ReplyView::Say(seq![s.watch_delete_msg(id)]),
        ),
        CommandView::DeleteWatch(None) => (s, ReplyView::Say(seq![USAGE_DELETE_WATCH@])),
        CommandView::Unknown(v) => (s, ReplyView::Say(seq![unknown_msg(v)])),
    }
}

/// The second line printed for a breakpoint spec that does not parse.
pub const EXPECTED_SPEC: &'static str = "expected: <line> | <file>:<line> | <file>:<line> if <bash-cond>";

// ------------------------------------------------------ breakpoint specs

/// The location part of a breakpoint spec and its condition: what stands
/// before and after the first `" if "`, trimmed.
pub open spec fn split_cond(spec: Seq<char>) -> (Seq<char>, Option<Seq<char>>) {
    match find_from(spec, " if "@, 0) {
        Some(k) => (trim(spec.take(k)), Some(trim(spec.skip(k + " if "@.len())))),
        None => (trim(spec), None),
    }
}

/// What a breakpoint spec `<line> | <file>:<line> | <file>:<line> if <cond>`
/// designates: file, line and condition; the file defaults to `script`.
pub open spec fn break_target(spec: Seq<char>, script: Seq<char>) -> Option<
    (Seq<char>, u32, Option<Seq<char>>),
> {
    let (loc, cond) = split_cond(spec);
    let (file, num) = match rfind_before(loc, ':', loc.len() as int) {
        Some(j) => (loc.take(j), loc.skip(j + 1)),
        None => (script, loc),
    };
    match parse_u32(num) {
        Some(n) => Some((file, n, cond)),
        None => None,
    }
}

/// Whether breakpoint `b` is set at `line` of the file `src`.
pub open spec fn bp_is_at(b: BpView, src: Seq<char>, line: u32) -> bool {
    b.line == line && same_script(b.file, src)
}

/// Whether the script, in `mode`, stops before the command at `line` of
/// `src`, run at call depth `depth`, when no breakpoint fires there.
pub open spec fn motion_stops(mode: ModeView, src: Seq<char>, line: u32, depth: u32) -> bool {
    match mode {
        ModeView::Step => true,
        ModeView::Next(d) => depth <= d,
        ModeView::Finish(d) => depth < d,
        ModeView::Continue => false,
        ModeView::Until(f, l) => l == line && same_script(f, src),
    }
}

/// First line of a listing around `center`: four lines before, at least 1.
pub open spec fn window_from(center: u32) -> int {
    if center >= 5 {
        center - 4
    } else {
        1
    }
}

/// Last line of a listing around `center` in a file of `total` lines.
pub open spec fn window_to(center: u32, total: int) -> int {
    if center + 4 <= total {
        center + 4
    } else {
        total
    }
}

/// Index of the first breakpoint at or after `from` that is set at `line`
/// of the file `src`.
pub open spec fn first_at(bps: Seq<BpView>, src: Seq<char>, line: u32, from: int) -> Option<int>
    decreases bps.len() - from,
{
    if from < 0 || from >= bps.len() {
        None
    } else if bp_is_at(bps[from], src, line) {
        Some(from)
    } else {
        first_at(bps, src, line, from + 1)
    }
}

pub proof fn lemma_first_at(bps: Seq<BpView>, src: Seq<char>, line: u32, from: int)
    requires
        0 <= from,
    ensures
        first_at(bps, src, line, from) matches Some(k) ==> from <= k < bps.len() && bp_is_at(
            bps[k],
            src,
            line,
        ) && forall|m: int| from <= m < k ==> !bp_is_at(#[trigger] bps[m], src, line),
        first_at(bps, src, line, from) is None ==> forall|m: int|
            from <= m < bps.len() ==> !bp_is_at(#[trigger] bps[m], src, line),
    decreases bps.len() - from,
{
    if from < bps.len() && !bp_is_at(bps[from], src, line) {
        lemma_first_at(bps, src, line, from + 1);
    }
}

/// Removing an element from a list whose ids increase and stay below
/// `bound` keeps both properties; the element with a given id is unique.
proof fn lemma_remove_sorted<A>(s: Seq<A>, id: spec_fn(A) -> u32, k: int, bound: u32)
    requires
        0 <= k < s.len(),
        forall|i: int, j: int| 0 <= i < j < s.len() ==> id(#[trigger] s[i]) < id(#[trigger] s[j]),
        forall|i: int| 0 <= i < s.len() ==> id(#[trigger] s[i]) < bound,
    ensures
        forall|i: int, j: int|
            0 <= i < j < s.remove(k).len() ==> id(#[trigger] s.remove(k)[i]) < id(
                #[trigger] s.remove(k)[j],
            ),
        forall|i: int| 0 <= i < s.remove(k).len() ==> id(#[trigger] s.remove(k)[i]) < bound,
        forall|c: int| 0 <= c < s.len() && id(s[c]) == id(s[k]) ==> c == k,
{
    let r = s.remove(k);
    assert forall|i: int, j: int| 0 <= i < j < r.len() implies id(#[trigger] r[i]) < id(
        #[trigger] r[j],
    ) by {
        let i0 = if i < k { i } else { i + 1 };
        let j0 = if j < k { j } else { j + 1 };
        assert(r[i] == s[i0] && r[j] == s[j0]);
    }
    assert forall|i: int| 0 <= i < r.len() implies id(#[trigger] r[i]) < bound by {
        let i0 = if i < k { i } else { i + 1 };
        assert(r[i] == s[i0]);
    }
    assert forall|c: int| 0 <= c < s.len() && id(s[c]) == id(s[k]) implies c == k by {
        if c < k {
            assert(id(s[c]) < id(s[k]));
        } else if c > k {
            assert(id(s[k]) < id(s[c]));
        }
    }
}

/// Parses a breakpoint spec; the file defaults to `script`.
pub fn parse_break_spec(spec: &str, script: &str) -> (r: Option<(String, u32, Option<String>)>)
    ensures
        match break_target(spec@, script@) {
            Some(t) => r matches Some(x) && x.0@ == t.0 && x.1 == t.1 && opt_view(x.2) == t.2,
            None => r is None,
        },
{
    let s = chars_of(spec);
    let pat = chars_of(" if ");
    let found = find(&s, &pat);
    let loc;
    let cond: Option<String>;
    match found {
        Some(k) => {
            proof {
                lemma_find_from(s@, pat@, 0);
            }
            let head = slice_of(&s, 0, k);
            let tail = slice_of(&s, k + pat.len(), s.len());
            assert(head@ =~= spec@.take(k as int));
            assert(tail@ =~= spec@.skip(k + " if "@.len()));
            loc = trim_chars(&head);
            cond = Some(string_of(&trim_chars(&tail)));
        },
        None => {
            loc = trim_chars(&s);
            cond = None;
        },
    }
    assert(loc@ == split_cond(spec@).0 && opt_view(cond) == split_cond(spec@).1);
    let file: String;
    let num;
    match rfind(&loc, ':') {
        Some(j) => {
            proof {
                lemma_rfind_before(loc@, ':', loc.len() as int);
            }
            let f = slice_of(&loc, 0, j);
            num = slice_of(&loc, j + 1, loc.len());
            assert(f@ =~= loc@.take(j as int));
            assert(num@ =~= loc@.skip(j + 1));
            file = string_of(&f);
        },
        None => {
            file = string_from(script);
            num = loc;
        },
    }
    match parse_u32_chars(&num) {
        Some(n) => Some((file, n, cond)),
        None => None,
    }
}

// ---------------------------------------------------------------- session

impl Session {
    /// A fresh session: no breakpoints nor watches, stopping at the first
    /// command unless `run`.
    pub fn new(pal: Pal, script: &str, run: bool) -> (s: Session)
        ensures
            s@.wf(),
            s@.pal == pal,
            s@.bps.len() == 0,
            s@.next_bp_id == 1,
            s@.watches.len() == 0,
            s@.next_watch_id == 1,
            s@.mode == (if run { ModeView::Continue } else { ModeView::Step }),
            s@.last_motion == "s"@,
            !s@.detached,
            s@.script == script@,
    {
        let s = Session {
            pal,
            bps: Vec::new(),
            next_bp_id: 1,
            watches: Vec::new(),
            next_watch_id: 1,
            mode: if run { RunMode::Continue } else { RunMode::Step },
            last_motion: string_from("s"),
            detached: false,
            script: string_from(script),
        };
        assert(s@.bps =~= Seq::<BpView>::empty());
        assert(s@.watches =~= Seq::<WatchView>::empty());
        s
    }

    /// Sets a breakpoint from a spec; returns the lines to print.
    pub fn add_breakpoint(&mut self, spec: &str) -> (lines: Vec<String>)
        requires
            old(self)@.wf(),
            break_target(spec@, old(self)@.script) is Some ==> old(self).next_bp_id < u32::MAX,
        ensures
            final(self)@.wf(),
            final(self)@ == old(self)@.with_breakpoint(spec@),
            string_views(lines@) == old(self)@.break_lines(spec@),
    {
        let mut lines: Vec<String> = Vec::new();
        match parse_break_spec(spec, self.script.as_str()) {
            Some((file, line, cond)) => {
                let id = self.next_bp_id;
                self.next_bp_id = id + 1;
                lines.push(bp_added_string(&self.pal, id, file.as_str(), line, &cond));
                self.bps.push(Breakpoint { id, file, line, cond, hits: 0 });
                assert(self@.bps =~= old(self)@.bps.push(self.bps@.last()@));
                assert(string_views(lines@) =~= seq![lines@[0]@]);
            },
            None => {
                lines.push(bad_spec_string(&self.pal, spec));
                lines.push(string_from(EXPECTED_SPEC));
                assert(string_views(lines@) =~= seq![lines@[0]@, lines@[1]@]);
            },
        }
        lines
    }

    /// The first breakpoint at or after index `from` that is set at `line`
    /// of the file `src`.
    pub fn breakpoint_at(&self, src: &str, line: u32, from: usize) -> (r: Option<usize>)
        ensures
            r matches Some(i) ==> first_at(self@.bps, src@, line, from as int) == Some(i as int),
            r is None ==> first_at(self@.bps, src@, line, from as int) is None,
    {
        let mut i: usize = from;
        while i < self.bps.len()
            invariant
                from <= i,
                first_at(self@.bps, src@, line, from as int) == first_at(
                    self@.bps,
                    src@,
                    line,
                    i as int,
                ),
            decreases self.bps.len() - i,
        {
            let b = &self.bps[i];
            assert(self@.bps[i as int] == b@);
            if b.line == line && paths_match(b.file.as_str(), src) {
                return Some(i);
            }
            i += 1;
        }
        None
    }

    /// Counts one more hit on breakpoint `i` and gives its id.
    fn record_hit(&mut self, i: usize) -> (id: u32)
        requires
            old(self)@.wf(),
            i < old(self)@.bps.len(),
            old(self)@.bps[i as int].hits < u64::MAX,
        ensures
            final(self)@.wf(),
            final(self)@ == old(self)@.with_hit(i as int),
            id == old(self)@.bps[i as int].id,
    {
        let b = &self.bps[i];
        let nb = Breakpoint {
            id: b.id,
            file: b.file.clone(),
            line: b.line,
            cond: copy_opt(&b.cond),
            hits: b.hits + 1,
        };
        let id = b.id;
        self.bps.set(i, nb);
        assert(self@.bps =~= old(self)@.with_hit(i as int).bps);
        id
    }

    /// Stop or go once it is known which breakpoint fired (if any).
    fn settle(&mut self, src: &str, line: u32, depth: u32, bp: Option<u32>) -> (v: Verdict)
        ensures
            (final(self)@, v@) == old(self)@.settle(src@, line, depth, bp),
    {
        if self.should_stop(src, line, depth, bp) {
            Verdict::Stop(bp)
        } else {
            Verdict::Go
        }
    }

    /// Tries the breakpoints set at `line` of `src` from index `from` on.
    fn scan(&mut self, src: &str, line: u32, depth: u32, from: usize) -> (v: Verdict)
        requires
            old(self)@.wf(),
            old(self)@.hits_room(src@, line),
        ensures
            final(self)@.wf(),
            (final(self)@, v@) == old(self)@.scan(src@, line, depth, from as int),
    {
        proof {
            lemma_first_at(self@.bps, src@, line, from as int);
        }
        match self.breakpoint_at(src, line, from) {
            Some(i) => {
                assert(self@.bps[i as int] == self.bps[i as int]@);
                assert(bp_is_at(self@.bps[i as int], src@, line));
                assert(self@.bps[i as int].hits < u64::MAX);
                match &self.bps[i].cond {
                    Some(c) => Verdict::Check(i, c.clone()),
                    None => {
                        let id = self.record_hit(i);
                        self.settle(src, line, depth, Some(id))
                    },
                }
            },
            None => self.settle(src, line, depth, None),
        }
    }

    /// The verdict on the stub's report that it is about to run a command at
    /// `line` of `src`, at call depth `depth`: let it through when detached
    /// or when the command is the stub's own; otherwise try the breakpoints
    /// set there in order, then the run mode.
    pub fn arrive(&mut self, src: &str, line: u32, depth: u32, stub_name: &str) -> (v: Verdict)
        requires
            old(self)@.wf(),
            old(self)@.hits_room(src@, line),
        ensures
            final(self)@.wf(),
            (final(self)@, v@) == old(self)@.arrival(src@, line, depth, stub_name@),
    {
        if self.passes_through(src, stub_name) {
            Verdict::Go
        } else {
            self.scan(src, line, depth, 0)
        }
    }

    /// The verdict once the condition of breakpoint `i` ran in the script
    /// and ended with exit status `status`: 0 fires the breakpoint; anything
    /// else tries the next breakpoint set there.
    pub fn condition_status(&mut self, src: &str, line: u32, depth: u32, i: usize, status: i32) -> (v:
        Verdict)
        requires
            old(self)@.wf(),
            old(self)@.hits_room(src@, line),
            i < old(self)@.bps.len(),
            bp_is_at(old(self)@.bps[i as int], src@, line),
        ensures
            final(self)@.wf(),
            (final(self)@, v@) == old(self)@.after_condition(src@, line, depth, i as int, status),
    {
        if status == 0 {
            let id = self.record_hit(i);
            self.settle(src, line, depth, Some(id))
        } else {
            assert(i < self.bps.len());
            self.scan(src, line, depth, i + 1)
        }
    }

    /// Deletes breakpoint `id`; returns the line to print.
    pub fn delete_breakpoint(&mut self, id: u32) -> (msg: String)
        requires
            old(self)@.wf(),
        ensures
            final(self)@.wf(),
            final(self)@ == old(self)@.without_breakpoint(id),
            msg@ == old(self)@.bp_delete_msg(id),
    {
        let mut k: usize = 0;
        while k < self.bps.len()
            invariant
                k <= self.bps.len(),
                self@ == old(self)@,
                old(self)@.wf(),
                forall|j: int| 0 <= j < k ==> (#[trigger] self@.bps[j]).id != id,
            decreases self.bps.len() - k,
        {
            assert(self@.bps[k as int].id == self.bps[k as int].id);
            if self.bps[k].id == id {
                let ghost s = old(self)@.bps;
                let ghost id_of = |b: BpView| b.id;
                proof {
                    lemma_remove_sorted(s, id_of, k as int, old(self).next_bp_id);
                }
                self.bps.remove(k);
                assert(self@.bps =~= s.remove(k as int));
                assert(self@.wf()) by {
                    assert forall|a: int, b: int|
                        0 <= a < b < self@.bps.len() implies #[trigger] self@.bps[a].id
                        < #[trigger] self@.bps[b].id by {
                        assert(id_of(s.remove(k as int)[a]) < id_of(s.remove(k as int)[b]));
                    }
                    assert forall|a: int| 0 <= a < self@.bps.len() implies #[trigger] self@.bps[a].id
                        < self@.next_bp_id by {
                        assert(id_of(s.remove(k as int)[a]) < old(self).next_bp_id);
                    }
                }
                return id_string("deleted breakpoint #", id);
            }
            k += 1;
        }
        id_string("no breakpoint #", id)
    }

    /// The lines of `bl`: each breakpoint with its condition and hit count.
    pub fn list_breakpoints(&self) -> (lines: Vec<String>)
        ensures
            string_views(lines@) == self@.bp_lines(),
    {
        let mut lines: Vec<String> = Vec::new();
        if self.bps.len() == 0 {
            lines.push(string_from("no breakpoints"));
            assert(string_views(lines@) =~= seq!["no breakpoints"@]);
            return lines;
        }
        let mut i: usize = 0;
        while i < self.bps.len()
            invariant
                i <= self.bps.len(),
                lines.len() == i,
                forall|j: int|
                    0 <= j < i ==> (#[trigger] lines@[j])@ == bp_list_msg(
                        self.pal,
                        self@.bps[j].id,
                        self@.bps[j].file,
                        self@.bps[j].line,
                        self@.bps[j].cond,
                        self@.bps[j].hits,
                    ),
            decreases self.bps.len() - i,
        {
            let b = &self.bps[i];
            assert(self@.bps[i as int] == b@);
            lines.push(bp_list_string(&self.pal, b.id, b.file.as_str(), b.line, &b.cond, b.hits));
            i += 1;
        }
        assert(string_views(lines@) =~= self@.bps.map_values(
            |b: BpView| bp_list_msg(self.pal, b.id, b.file, b.line, b.cond, b.hits),
        ));
        lines
    }

    /// Adds a watch on a bash expression; returns the line to print.
    pub fn add_watch(&mut self, expr: &str) -> (msg: String)
        requires
            old(self)@.wf(),
            old(self).next_watch_id < u32::MAX,
        ensures
            final(self)@.wf(),
            final(self)@ == old(self)@.with_watch(expr@),
            msg@ == watch_msg(old(self).next_watch_id, expr@),
    {
        let id = self.next_watch_id;
        self.next_watch_id = id + 1;
        self.watches.push(Watch { id, expr: string_from(expr) });
        assert(self@.watches =~= old(self)@.watches.push(WatchView { id, expr: expr@ }));
        watch_string(id, expr)
    }

    /// The lines of `wl`: each watch and its expression.
    pub fn list_watches(&self) -> (lines: Vec<String>)
        ensures
            string_views(lines@) == self@.watch_lines(),
    {
        let mut lines: Vec<String> = Vec::new();
        if self.watches.len() == 0 {
            lines.push(string_from("no watches"));
            assert(string_views(lines@) =~= seq!["no watches"@]);
            return lines;
        }
        let mut i: usize = 0;
        while i < self.watches.len()
            invariant
                i <= self.watches.len(),
                lines.len() == i,
                forall|j: int|
                    0 <= j < i ==> (#[trigger] lines@[j])@ == watch_list_msg(
                        self@.watches[j].id,
                        self@.watches[j].expr,
                    ),
            decreases self.watches.len() - i,
        {
            let w = &self.watches[i];
            assert(self@.watches[i as int] == w@);
            lines.push(watch_list_string(w.id, w.expr.as_str()));
            i += 1;
        }
        assert(string_views(lines@) =~= self@.watches.map_values(
            |w: WatchView| watch_list_msg(w.id, w.expr),
        ));
        lines
    }

    /// Deletes watch `id`; returns the line to print.
    pub fn delete_watch(&mut self, id: u32) -> (msg: String)
        requires
            old(self)@.wf(),
        ensures
            final(self)@.wf(),
            final(self)@ == old(self)@.without_watch(id),
            msg@ == old(self)@.watch_delete_msg(id),
    {
        let mut k: usize = 0;
        while k < self.watches.len()
            invariant
                k <= self.watches.len(),
                self@ == old(self)@,
                old(self)@.wf(),
                forall|j: int| 0 <= j < k ==> (#[trigger] self@.watches[j]).id != id,
            decreases self.watches.len() - k,
        {
            assert(self@.watches[k as int].id == self.watches[k as int].id);
            if self.watches[k].id == id {
                let ghost s = old(self)@.watches;
                let ghost id_of = |w: WatchView| w.id;
                proof {
                    lemma_remove_sorted(s, id_of, k as int, old(self).next_watch_id);
                }
                self.watches.remove(k);
                assert(self@.watches =~= s.remove(k as int));
                assert(self@.wf()) by {
                    assert forall|a: int, b: int|
                        0 <= a < b < self@.watches.len() implies #[trigger] self@.watches[a].id
                        < #[trigger] self@.watches[b].id by {
                        assert(id_of(s.remove(k as int)[a]) < id_of(s.remove(k as int)[b]));
                    }
                    assert forall|a: int|
                        0 <= a < self@.watches.len() implies #[trigger] self@.watches[a].id
                        < self@.next_watch_id by {
                        assert(id_of(s.remove(k as int)[a]) < old(self).next_watch_id);
                    }
                }
                return id_string("deleted watch #", id);
            }
            k += 1;
        }
        id_string("no watch #", id)
    }

    /// The bash code that shows each watch's value, in watch order.
    pub fn watch_codes(&self) -> (codes: Vec<String>)
        ensures
            string_views(codes@) == self@.watches.map_values(|w: WatchView| watch_code(w.expr)),
    {
        let mut codes: Vec<String> = Vec::new();
        let mut i: usize = 0;
        while i < self.watches.len()
            invariant
                i <= self.watches.len(),
                codes.len() == i,
                forall|j: int|
                    0 <= j < i ==> (#[trigger] codes@[j])@ == watch_code(self@.watches[j].expr),
            decreases self.watches.len() - i,
        {
            assert(self@.watches[i as int] == self.watches[i as int]@);
            codes.push(watch_code_string(self.watches[i].expr.as_str()));
            i += 1;
        }
        assert(string_views(codes@) =~= self@.watches.map_values(
            |w: WatchView| watch_code(w.expr),
        ));
        codes
    }

    /// Whether the message from `src` is let through without a stop: the
    /// session is detached, or the command belongs to the debugger's stub.
    pub fn passes_through(&self, src: &str, stub_name: &str) -> (r: bool)
        ensures
            r == (self@.detached || ends_with(src@, stub_name@)),
    {
        self.detached || has_suffix(&chars_of(src), &chars_of(stub_name))
    }

    /// Stops talking to the user: every later command runs unasked.
    pub fn detach(&mut self) -> (msg: String)
        ensures
            final(self)@ == (SessionView { detached: true, ..old(self)@ }),
            msg@ == detach_msg(old(self).pal),
    {
        self.detached = true;
        detach_string(&self.pal)
    }

    /// Whether to stop before the command at `line` of `src`, at call depth
    /// `depth`, where breakpoint `bp` fired (if any). An `until` target that
    /// is reached disarms itself.
    pub fn should_stop(&mut self, src: &str, line: u32, depth: u32, bp: Option<u32>) -> (stop:
        bool)
        ensures
            stop == (bp is Some || motion_stops(old(self)@.mode, src@, line, depth)),
            (old(self)@.mode is Until && motion_stops(old(self)@.mode, src@, line, depth))
                ==> final(self)@ == (SessionView { mode: ModeView::Continue, ..old(self)@ }),
            !(old(self)@.mode is Until && motion_stops(old(self)@.mode, src@, line, depth))
                ==> final(self)@ == old(self)@,
    {
        let by_motion = match &self.mode {
            RunMode::Step => true,
            RunMode::Next(d) => depth <= *d,
            RunMode::Finish(d) => depth < *d,
            RunMode::Continue => false,
            RunMode::Until(f, l) => {
                if *l == line && paths_match(f.as_str(), src) {
                    self.mode = RunMode::Continue;
                    true
                } else {
                    false
                }
            },
        };
        bp.is_some() || by_motion
    }

    /// What to print at a stop: a blank line, where the script stands and
    /// the command about to run, then each watch with its value.
    pub fn announce(
        &self,
        src: &str,
        line: u32,
        depth: u32,
        cmd: &str,
        bp: Option<u32>,
        values: &Vec<String>,
    ) -> (lines: Vec<String>)
        requires
            values.len() == self@.watches.len(),
        ensures
            string_views(lines@) == seq![
                Seq::<char>::empty(),
                stop_header_msg(self.pal, src@, line, depth, bp),
                stop_command_msg(self.pal, cmd@),
            ] + Seq::new(
                self@.watches.len(),
                |i: int|
                    watch_value_msg(self@.watches[i].id, self@.watches[i].expr, values@[i]@),
            ),
    {
        let mut lines: Vec<String> = Vec::new();
        lines.push(String::new());
        lines.push(stop_header_string(&self.pal, src, line, depth, bp));
        lines.push(stop_command_string(&self.pal, cmd));
        let ghost head = string_views(lines@);
        let mut i: usize = 0;
        while i < self.watches.len()
            invariant
                i <= self.watches.len() == values.len(),
                lines.len() == 3 + i,
                string_views(lines@).take(3) == head,
                forall|j: int|
                    0 <= j < i ==> (#[trigger] lines@[3 + j])@ == watch_value_msg(
                        self@.watches[j].id,
                        self@.watches[j].expr,
                        values@[j]@,
                    ),
            decreases self.watches.len() - i,
        {
            let w = &self.watches[i];
            assert(self@.watches[i as int] == w@);
            let ghost before = string_views(lines@);
            lines.push(watch_value_string(w.id, w.expr.as_str(), values[i].as_str()));
            assert(string_views(lines@).take(3) =~= before.take(3));
            i += 1;
        }
        assert forall|k: int| 0 <= k < 3 implies #[trigger] string_views(lines@)[k] == head[k] by {
            assert(string_views(lines@).take(3)[k] == string_views(lines@)[k]);
        }
        assert forall|k: int| 3 <= k < lines.len() implies #[trigger] string_views(lines@)[k]
            == watch_value_msg(self@.watches[k - 3].id, self@.watches[k - 3].expr, values@[k - 3]@) by {
            assert(lines@[3 + (k - 3)] == lines@[k]);
        }
        assert(string_views(lines@) =~= head + Seq::new(
            self@.watches.len(),
            |k: int| watch_value_msg(self@.watches[k].id, self@.watches[k].expr, values@[k]@),
        ));
        lines
    }

    /// A listing of `file` around line `center`, with line `cur` marked;
    /// `lines` is the file's text, `None` when it cannot be read.
    pub fn list_source(&self, file: &str, lines: Option<&Vec<String>>, center: u32, cur: u32) -> (out:
        Vec<String>)
        requires
            lines matches Some(ls) ==> ls.len() <= u32::MAX && center <= u32::MAX - 4,
        ensures
            lines is None ==> string_views(out@) == seq![unreadable_msg(self.pal, file@)],
            lines matches Some(ls) ==> {
                let from = window_from(center);
                let to = window_to(center, ls.len() as int);
                string_views(out@) == Seq::new(
                    if from <= to { (to - from + 1) as nat } else { 0 },
                    |k: int| source_line_msg(self.pal, (from + k) as u32, cur, ls@[from + k - 1]@),
                )
            },
    {
        let mut out: Vec<String> = Vec::new();
        match lines {
            None => {
                out.push(unreadable_string(&self.pal, file));
                assert(string_views(out@) =~= seq![unreadable_msg(self.pal, file@)]);
                out
            },
            Some(ls) => {
                let total = ls.len() as u32;
                let from: u32 = if center >= 5 { center - 4 } else { 1 };
                let to: u32 = if center + 4 <= total { center + 4 } else { total };
                let mut n: u64 = from as u64;
                if from <= to {
                    while n <= to as u64
                        invariant
                            from <= n <= to as u64 + 1,
                            to <= total == ls.len(),
                            from >= 1,
                            from == window_from(center),
                            to == window_to(center, ls.len() as int),
                            out.len() == n - from,
                            forall|k: int|
                                0 <= k < n - from ==> (#[trigger] out@[k])@ == source_line_msg(
                                    self.pal,
                                    (from + k) as u32,
                                    cur,
                                    ls@[from + k - 1]@,
                                ),
                        decreases to + 1 - n,
                    {
                        out.push(
                            source_line_string(&self.pal, n as u32, cur, ls[(n - 1) as usize].as_str()),
                        );
                        n += 1;
                    }
                }
                assert(string_views(out@) =~= Seq::new(
                    if from <= to { (to - from + 1) as nat } else { 0 },
                    |k: int| source_line_msg(self.pal, (from + k) as u32, cur, ls@[from + k - 1]@),
                ));
                out
            },
        }
    }

    fn say(line: String) -> (r: Reply)
        ensures
            r@ == ReplyView::Say(seq![line@]),
    {
        let mut v: Vec<String> = Vec::new();
        v.push(line);
        assert(string_views(v@) =~= seq![line@]);
        Reply::Say(v)
    }

    /// Carries out a command typed while the script is stopped at `line` of
    /// `src`, at call depth `depth`.
    pub fn apply(&mut self, cmd: Command, src: &str, line: u32, depth: u32) -> (r: Reply)
        requires
            old(self)@.wf(),
            id_room(old(self)@, cmd@),
        ensures
            final(self)@.wf(),
            (final(self)@, r@) == reply_of(old(self)@, cmd@, src@, line, depth),
    {
        match cmd {
            Command::Step => {
                self.mode = RunMode::Step;
                self.last_motion = string_from("s");
                assert(self@.watches == old(self)@.watches && self@.bps == old(self)@.bps);
                Reply::Resume
            },
            Command::Next => {
                self.mode = RunMode::Next(depth);
                self.last_motion = string_from("n");
                assert(self@.watches == old(self)@.watches && self@.bps == old(self)@.bps);
                Reply::Resume
            },
            Command::Finish => {
                self.mode = RunMode::Finish(depth);
                self.last_motion = string_from("f");
                assert(self@.watches == old(self)@.watches && self@.bps == old(self)@.bps);
                Reply::Resume
            },
            Command::Continue => {
                self.mode = RunMode::Continue;
                self.last_motion = string_from("c");
                assert(self@.watches == old(self)@.watches && self@.bps == old(self)@.bps);
                Reply::Resume
            },
            Command::Until(Some(n)) => {
                self.mode = RunMode::Until(string_from(src), n);
                let mut m = string_from("u ");
                push_chars(&mut m, &decimal_chars(n as u64));
                self.last_motion = m;
                assert(self@.watches == old(self)@.watches && self@.bps == old(self)@.bps);
                Reply::Resume
            },
            Command::Until(None) => Self::say(string_from(USAGE_UNTIL)),
            Command::Quit => Reply::Quit,
            Command::Break(r) => {
                if r.as_str().is_empty() {
                    Self::say(string_from(USAGE_BREAK))
                } else {
                    Reply::Say(self.add_breakpoint(r.as_str()))
                }
            },
            Command::ListBreaks => Reply::Say(self.list_breakpoints()),
            Command::Delete(Some(id)) => Self::say(self.delete_breakpoint(id)),
            Command::Delete(None) => Self::say(string_from(USAGE_DELETE)),
            Command::Print(r) => {
                if r.as_str().is_empty() {
                    Self::say(string_from(USAGE_PRINT))
                } else {
                    let ws = words_of(&chars_of(r.as_str()));
                    let mut codes: Vec<String> = Vec::new();
                    let mut i: usize = 0;
                    while i < ws.len()
                        invariant
                            i <= ws.len(),
                            codes.len() == i,
                            char_views(ws@) == words(r@),
                            self@ == old(self)@,
                            old(self)@.wf(),
                            forall|j: int|
                                0 <= j < i ==> (#[trigger] codes@[j])@ == inspect_code(ws@[j]@),
                        decreases ws.len() - i,
                    {
                        let name = string_of(&ws[i]);
                        codes.push(inspect_code_string(name.as_str()));
                        i += 1;
                    }
                    assert(string_views(codes@) =~= words(r@).map_values(
                        |w: Seq<char>| inspect_code(w),
                    ));
                    Reply::Inspect(codes)
                }
            },
            Command::Eval(r) => {
                if r.as_str().is_empty() {
                    Self::say(string_from(USAGE_EVAL))
                } else {
                    Reply::Run(r)
                }
            },
            Command::Backtrace => Reply::Backtrace,
            Command::List(n) => {
                let center = match n {
                    Some(c) => c,
                    None => line,
                };
                Reply::Source(string_from(src), center, line)
            },
            Command::Help => Self::say(string_from(HELP)),
            Command::Watch(r) => {
                if r.as_str().is_empty() {
                    Self::say(string_from(USAGE_WATCH))
                } else {
                    Self::say(self.add_watch(r.as_str()))
                }
            },
            Command::ListWatches => Reply::Say(self.list_watches()),
            Command::DeleteWatch(Some(id)) => Self::say(self.delete_watch(id)),
            Command::DeleteWatch(None) => Self::say(string_from(USAGE_DELETE_WATCH)),
            Command::Unknown(v) => Self::say(unknown_string(v.as_str())),
        }
    }

    /// Carries out the line typed at the prompt while the script is stopped
    /// at `line` of `src`, at call depth `depth`; a blank line repeats the
    /// last motion command.
    pub fn handle_input(&mut self, input: &str, src: &str, line: u32, depth: u32) -> (r: Reply)
        requires
            old(self)@.wf(),
            id_room(old(self)@, command_of(input@, old(self)@.last_motion)),
        ensures
            final(self)@.wf(),
            (final(self)@, r@) == reply_of(
                old(self)@,
                command_of(input@, old(self)@.last_motion),
                src@,
                line,
                depth,
            ),
    {
        let cmd = parse_command(input, self.last_motion.as_str());
        self.apply(cmd, src, line, depth)
    }

    /// What `x <code>` prints: the code's output, then its exit status when
    /// that is not 0.
    pub fn eval_report(&self, out: &str, status: i32) -> (r: String)
        ensures
            r@ == out@ + if status != 0 {
                exit_status_msg(self.pal, status) + seq!['\n']
            } else {
                Seq::empty()
            },
    {
        let mut r = string_from(out);
        if status != 0 {
            r.append(exit_status_string(&self.pal, status).as_str());
            r.push('\n');
        }
        assert(r@ =~= out@ + if status != 0 {
            exit_status_msg(self.pal, status) + seq!['\n']
        } else {
            Seq::<char>::empty()
        });
        r
    }
}

} // verus!
