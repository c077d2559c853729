use vstd::prelude::*;
use vstd::string::*;
use crate::numbers::{parse_i32, parse_i32_chars, parse_u32, parse_u32_chars};
use crate::text::{
    chars_of, has_prefix, index_of, index_of_from, lemma_index_of_from,
    lines_of, lines_of_chars, one_line, one_line_chars, push_chars, slice_of, starts_with,
    string_of, string_views, strings_of, strip_line_end, strip_line_end_chars, trim, trim_chars,
};

verus! {

/// What the stub sends before every simple command of the script.
pub const STOP_PREFIX: &'static str = "STOP\t";

/// The line that ends the stub's answer to `EVAL` and `BT`; the exit status
/// follows it.
pub const SENTINEL: &'static str = "\u{4}END";

/// The stub is about to run `cmd`, at `line` of `src`, at call depth `depth`.
pub struct Stop {
    pub src: String,
    pub line: u32,
    pub depth: u32,
    pub cmd: String,
}

pub struct StopView {
    pub src: Seq<char>,
    pub line: u32,
    pub depth: u32,
    pub cmd: Seq<char>,
}

impl View for Stop {
    type V = StopView;

    open spec fn view(&self) -> StopView {
        StopView { src: self.src@, line: self.line, depth: self.depth, cmd: self.cmd@ }
    }
}

/// `s.splitn(4, '\t')`: up to four fields; the last one keeps its tabs.
pub open spec fn tab_fields(s: Seq<char>) -> (
    Seq<char>,
    Option<Seq<char>>,
    Option<Seq<char>>,
    Option<Seq<char>>,
) {
    let n = s.len() as int;
    let k1 = index_of_from(s, '\t', 0);
    if k1 >= n {
        (s, None, None, None)
    } else {
        let k2 = index_of_from(s, '\t', k1 + 1);
        if k2 >= n {
            (s.take(k1), Some(s.subrange(k1 + 1, n)), None, None)
        } else {
            let k3 = index_of_from(s, '\t', k2 + 1);
            if k3 >= n {
                (s.take(k1), Some(s.subrange(k1 + 1, k2)), Some(s.subrange(k2 + 1, n)), None)
            } else {
                (
                    s.take(k1),
                    Some(s.subrange(k1 + 1, k2)),
                    Some(s.subrange(k2 + 1, k3)),
                    Some(s.skip(k3 + 1)),
                )
            }
        }
    }
}

/// A number field, or `default` when it is missing or not a `u32`.
pub open spec fn u32_or(f: Option<Seq<char>>, default: u32) -> u32 {
    match f {
        Some(t) => match parse_u32(t) {
            Some(n) => n,
            None => default,
        },
        None => default,
    }
}

/// The stop that a message `STOP\t<file>\t<line>\t<depth>\t<command>`
/// announces; a missing or bad line counts as 0, a missing or bad depth as 1.
pub open spec fn stop_of(msg: Seq<char>) -> Option<StopView> {
    if starts_with(msg, STOP_PREFIX@) {
        let f = tab_fields(msg.skip(STOP_PREFIX@.len() as int));
        Some(
            StopView {
                src: f.0,
                line: u32_or(f.1, 0),
                depth: u32_or(f.2, 1),
                cmd: match f.3 {
                    Some(c) => c,
                    None => Seq::empty(),
                },
            },
        )
    } else {
        None
    }
}

/// The output of a frame: what was collected, without the newline that the
/// stub adds before the sentinel.
pub open spec fn frame_output(collected: Seq<char>) -> Seq<char> {
    if collected.len() > 0 && collected.last() == '\n' {
        collected.drop_last()
    } else {
        collected
    }
}

/// The status after the sentinel: an `i32`, or -1 when it is not one.
pub open spec fn frame_status(after: Seq<char>) -> i32 {
    match parse_i32(trim(after)) {
        Some(v) => v,
        None => -1i32,
    }
}

/// `s.split('\n')`: the pieces between newlines.
pub open spec fn pieces(s: Seq<char>) -> Seq<Seq<char>>
    decreases s.len(),
{
    let k = index_of_from(s, '\n', 0);
    if 0 <= k < s.len() {
        seq![s.take(k)] + pieces(s.skip(k + 1))
    } else {
        seq![s]
    }
}

/// What a frame has collected after taking the lines `ls`, each followed by
/// a newline, starting from `c`.
pub open spec fn collect_lines(c: Seq<char>, ls: Seq<Seq<char>>) -> Seq<char>
    decreases ls.len(),
{
    if ls.len() == 0 {
        c
    } else {
        collect_lines(c + ls[0] + seq!['\n'], ls.drop_first())
    }
}

/// The request that runs `code` in the script, on one line.
pub open spec fn eval_request_msg(code: Seq<char>) -> Seq<char> {
    "EVAL "@ + one_line(code)
}

/// What `bt` prints for the stub's backtrace.
pub open spec fn backtrace_msg(out: Seq<char>) -> Seq<char> {
    if out.len() == 0 {
        "(top level)\n"@
    } else {
        out
    }
}

fn u32_field_or(f: &Option<Vec<char>>, default: u32) -> (r: u32)
    ensures
        r == u32_or(
            match f {
                Some(v) => Some(v@),
                None => None,
            },
            default,
        ),
{
    match f {
        Some(v) => match parse_u32_chars(v) {
            Some(n) => n,
            None => default,
        },
        None => default,
    }
}

/// Reads a message of the stub; `None` when it announces no stop.
pub fn parse_stop(msg: &str) -> (r: Option<Stop>)
    ensures
        match stop_of(msg@) {
            Some(s) => r matches Some(x) && x@ == s,
            None => r is None,
        },
{
    let m = chars_of(msg);
    let p = chars_of(STOP_PREFIX);
    if !has_prefix(&m, &p) {
        return None;
    }
    let s = slice_of(&m, p.len(), m.len());
    assert(s@ =~= msg@.skip(STOP_PREFIX@.len() as int));
    let n = s.len();
    let k1 = index_of(&s, '\t', 0);
    proof {
        lemma_index_of_from(s@, '\t', 0);
    }
    let src;
    let mut f1: Option<Vec<char>> = None;
    let mut f2: Option<Vec<char>> = None;
    let mut f3: Option<Vec<char>> = None;
    if k1 >= n {
        src = s.clone();
    } else {
        src = slice_of(&s, 0, k1);
        assert(src@ =~= s@.take(k1 as int));
        let k2 = index_of(&s, '\t', k1 + 1);
        proof {
            lemma_index_of_from(s@, '\t', k1 + 1);
        }
        if k2 >= n {
            f1 = Some(slice_of(&s, k1 + 1, n));
        } else {
            f1 = Some(slice_of(&s, k1 + 1, k2));
            let k3 = index_of(&s, '\t', k2 + 1);
            proof {
                lemma_index_of_from(s@, '\t', k2 + 1);
            }
            if k3 >= n {
                f2 = Some(slice_of(&s, k2 + 1, n));
            } else {
                f2 = Some(slice_of(&s, k2 + 1, k3));
                let last = slice_of(&s, k3 + 1, n);
                assert(last@ =~= s@.skip(k3 + 1));
                f3 = Some(last);
            }
        }
    }
    let line = u32_field_or(&f1, 0);
    let depth = u32_field_or(&f2, 1);
    let cmd = match f3 {
        Some(c) => string_of(&c),
        None => String::new(),
    };
    Some(Stop { src: string_of(&src), line, depth, cmd })
}

/// Gathers the lines of the stub's answer to `EVAL` or `BT` until the
/// sentinel line.
pub struct Frame {
    pub collected: String,
}

impl Frame {
    pub fn new() -> (f: Frame)
        ensures
            f.collected@ == Seq::<char>::empty(),
    {
        Frame { collected: String::new() }
    }

    /// Takes one line (its line ending removed). At the sentinel the frame
    /// is complete and its output and status are returned; any other line
    /// is collected, with a newline.
    pub fn feed(&mut self, line: &str) -> (r: Option<(String, i32)>)
        ensures
            starts_with(line@, SENTINEL@) ==> {
                &&& final(self).collected@ == old(self).collected@
                &&& r matches Some(p)
                &&& p.0@ == frame_output(old(self).collected@)
                &&& p.1 == frame_status(line@.skip(SENTINEL@.len() as int))
            },
            !starts_with(line@, SENTINEL@) ==> r is None && final(self).collected@ == old(
                self,
            ).collected@ + line@ + seq!['\n'],
    {
        let l = chars_of(line);
        let sent = chars_of(SENTINEL);
        if has_prefix(&l, &sent) {
            let after = slice_of(&l, sent.len(), l.len());
            assert(after@ =~= line@.skip(SENTINEL@.len() as int));
            let status = match parse_i32_chars(&trim_chars(&after)) {
                Some(v) => v,
                None => -1,
            };
            let c = chars_of(self.collected.as_str());
            let out = if c.len() > 0 && c[c.len() - 1] == '\n' {
                let o = slice_of(&c, 0, c.len() - 1);
                assert(o@ =~= c@.drop_last());
                o
            } else {
                c
            };
            Some((string_of(&out), status))
        } else {
            self.collected.append(line);
            self.collected.push('\n');
            None
        }
    }

    /// The frame cut short by the end of the connection: what was collected,
    /// and status -1.
    pub fn cut(self) -> (r: (String, i32))
        ensures
            r.0@ == self.collected@,
            r.1 == -1,
    {
        (self.collected, -1)
    }
}

/// The request that runs `code` in the live script: `EVAL`, then the code
/// with each newline turned into `"; "`.
pub fn eval_request(code: &str) -> (r: String)
    ensures
        r@ == eval_request_msg(code@),
{
    let mut r = String::new();
    r.append("EVAL ");
    push_chars(&mut r, &one_line_chars(&chars_of(code)));
    r
}

/// A received line without its line ending.
pub fn chomp(line: &str) -> (r: String)
    ensures
        r@ == strip_line_end(line@),
{
    string_of(&strip_line_end_chars(&chars_of(line)))
}

/// The lines of a source file.
pub fn source_lines(text: &str) -> (r: Vec<String>)
    ensures
        string_views(r@) == lines_of(text@),
{
    strings_of(&lines_of_chars(&chars_of(text)))
}

/// What `bt` prints: the stub's backtrace, or `(top level)` when empty.
pub fn backtrace_text(out: &str) -> (r: String)
    ensures
        r@ == backtrace_msg(out@),
{
    if out.is_empty() {
        string_of(&chars_of("(top level)\n"))
    } else {
        string_of(&chars_of(out))
    }
}

} // verus!
