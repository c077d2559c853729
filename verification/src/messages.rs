use vstd::prelude::*;
use vstd::string::*;
use crate::numbers::{decimal, decimal_chars, pad_left, pad_left_chars, signed_decimal, signed_decimal_chars};
use crate::palette::Pal;
use crate::paths::{basename, basename_of};
use crate::text::{chars_of, push_chars, strip_line_end, strip_line_end_chars};

verus! {

// ------------------------------------------------------------------ specs

/// `"  if <cond>"` when there is a condition, nothing otherwise.
pub open spec fn cond_suffix(cond: Option<Seq<char>>) -> Seq<char> {
    match cond {
        Some(c) => "  if "@ + c,
        None => Seq::empty(),
    }
}

pub open spec fn opt_view(o: Option<String>) -> Option<Seq<char>> {
    match o {
        Some(s) => Some(s@),
        None => None,
    }
}

/// The line that confirms a new breakpoint.
pub open spec fn bp_added_msg(
    pal: Pal,
    id: u32,
    file: Seq<char>,
    line: u32,
    cond: Option<Seq<char>>,
) -> Seq<char> {
    pal.green@ + "breakpoint #"@ + decimal(id as nat) + pal.reset@ + " at "@ + basename_of(file)
        + ":"@ + decimal(line as nat) + cond_suffix(cond)
}

/// The first line printed for a breakpoint spec that does not parse.
pub open spec fn bad_spec_msg(pal: Pal, spec: Seq<char>) -> Seq<char> {
    pal.red@ + "bad breakpoint spec: "@ + spec + pal.reset@
}

/// One line of the breakpoint list.
pub open spec fn bp_list_msg(
    pal: Pal,
    id: u32,
    file: Seq<char>,
    line: u32,
    cond: Option<Seq<char>>,
    hits: u64,
) -> Seq<char> {
    "  #"@ + decimal(id as nat) + "  "@ + file + ":"@ + decimal(line as nat) + cond_suffix(cond)
        + "  "@ + pal.dim@ + "("@ + decimal(hits as nat) + " hits)"@ + pal.reset@
}

/// `<prefix><id><suffix>`, as in `"deleted breakpoint #3"`.
pub open spec fn id_msg(prefix: Seq<char>, id: u32) -> Seq<char> {
    prefix + decimal(id as nat)
}

/// The line that confirms a new watch, and that lists one.
pub open spec fn watch_msg(id: u32, expr: Seq<char>) -> Seq<char> {
    "watch #"@ + decimal(id as nat) + ": "@ + expr
}

pub open spec fn watch_list_msg(id: u32, expr: Seq<char>) -> Seq<char> {
    "  #"@ + decimal(id as nat) + "  "@ + expr
}

/// A watch and its value, shown at a stop.
pub open spec fn watch_value_msg(id: u32, expr: Seq<char>, value: Seq<char>) -> Seq<char> {
    "  watch #"@ + decimal(id as nat) + ": "@ + expr + " = "@ + strip_line_end(value)
}

/// The bash code that `p <name>` runs in the script.
pub open spec fn inspect_code(name: Seq<char>) -> Seq<char> {
    "declare -p "@ + name + " 2>/dev/null || printf '%s: not set\\n' "@ + name
}

/// The bash code that shows the value of a watch expression.
pub open spec fn watch_code(expr: Seq<char>) -> Seq<char> {
    "echo "@ + expr
}

pub open spec fn exit_status_msg(pal: Pal, status: i32) -> Seq<char> {
    pal.dim@ + "(exit status "@ + signed_decimal(status as int) + ")"@ + pal.reset@
}

pub open spec fn unknown_msg(verb: Seq<char>) -> Seq<char> {
    "unknown command '"@ + verb + "' — try 'h'"@
}

/// The header line of a stop: where, how deep, and which breakpoint fired.
pub open spec fn stop_header_msg(
    pal: Pal,
    src: Seq<char>,
    line: u32,
    depth: u32,
    bp: Option<u32>,
) -> Seq<char> {
    pal.bold@ + src + ":"@ + decimal(line as nat) + pal.reset@ + " "@ + pal.dim@ + "[depth "@
        + decimal(depth as nat) + "]"@ + pal.reset@ + match bp {
        Some(id) => " "@ + pal.red@ + "● breakpoint #"@ + decimal(id as nat) + pal.reset@,
        None => Seq::empty(),
    }
}

/// The line that shows the command about to run.
pub open spec fn stop_command_msg(pal: Pal, cmd: Seq<char>) -> Seq<char> {
    "  "@ + pal.cyan@ + "→ "@ + cmd + pal.reset@
}

/// One line of a source listing; `cur` is marked.
pub open spec fn source_line_msg(pal: Pal, n: u32, cur: u32, text: Seq<char>) -> Seq<char> {
    if n == cur {
        pal.yellow@ + pad_left(decimal(n as nat), 5) + " ▶ "@ + text + pal.reset@
    } else {
        pal.dim@ + pad_left(decimal(n as nat), 5) + pal.reset@ + "   "@ + text
    }
}

pub open spec fn unreadable_msg(pal: Pal, file: Seq<char>) -> Seq<char> {
    pal.dim@ + "(source not readable: "@ + file + ")"@ + pal.reset@
}

pub open spec fn detach_msg(pal: Pal) -> Seq<char> {
    pal.dim@ + "stdin closed — detaching, script continues"@ + pal.reset@
}

// ------------------------------------------------------------------- exec

pub fn cond_suffix_string(cond: &Option<String>) -> (r: String)
    ensures
        r@ == cond_suffix(opt_view(*cond)),
{
    let mut r = String::new();
    match cond {
        Some(c) => {
            r.append("  if ");
            r.append(c.as_str());
        },
        None => {},
    }
    r
}

pub fn bp_added_string(pal: &Pal, id: u32, file: &str, line: u32, cond: &Option<String>) -> (r:
    String)
    ensures
        r@ == bp_added_msg(*pal, id, file@, line, opt_view(*cond)),
{
    let mut r = String::new();
    r.append(pal.green);
    r.append("breakpoint #");
    push_chars(&mut r, &decimal_chars(id as u64));
    r.append(pal.reset);
    r.append(" at ");
    r.append(basename(file));
    r.append(":");
    push_chars(&mut r, &decimal_chars(line as u64));
    let c = cond_suffix_string(cond);
    r.append(c.as_str());
    assert(r@ =~= bp_added_msg(*pal, id, file@, line, opt_view(*cond)));
    r
}

pub fn bad_spec_string(pal: &Pal, spec: &str) -> (r: String)
    ensures
        r@ == bad_spec_msg(*pal, spec@),
{
    let mut r = String::new();
    r.append(pal.red);
    r.append("bad breakpoint spec: ");
    r.append(spec);
    r.append(pal.reset);
    assert(r@ =~= bad_spec_msg(*pal, spec@));
    r
}

pub fn bp_list_string(
    pal: &Pal,
    id: u32,
    file: &str,
    line: u32,
    cond: &Option<String>,
    hits: u64,
) -> (r: String)
    ensures
        r@ == bp_list_msg(*pal, id, file@, line, opt_view(*cond), hits),
{
    let mut r = String::new();
    r.append("  #");
    push_chars(&mut r, &decimal_chars(id as u64));
    r.append("  ");
    r.append(file);
    r.append(":");
    push_chars(&mut r, &decimal_chars(line as u64));
    let c = cond_suffix_string(cond);
    r.append(c.as_str());
    r.append("  ");
    r.append(pal.dim);
    r.append("(");
    push_chars(&mut r, &decimal_chars(hits));
    r.append(" hits)");
    r.append(pal.reset);
    assert(r@ =~= bp_list_msg(*pal, id, file@, line, opt_view(*cond), hits));
    r
}

pub fn id_string(prefix: &str, id: u32) -> (r: String)
    ensures
        r@ == id_msg(prefix@, id),
{
    let mut r = String::new();
    r.append(prefix);
    push_chars(&mut r, &decimal_chars(id as u64));
    assert(r@ =~= id_msg(prefix@, id));
    r
}

pub fn watch_string(id: u32, expr: &str) -> (r: String)
    ensures
        r@ == watch_msg(id, expr@),
{
    let mut r = String::new();
    r.append("watch #");
    push_chars(&mut r, &decimal_chars(id as u64));
    r.append(": ");
    r.append(expr);
    assert(r@ =~= watch_msg(id, expr@));
    r
}

pub fn watch_list_string(id: u32, expr: &str) -> (r: String)
    ensures
        r@ == watch_list_msg(id, expr@),
{
    let mut r = String::new();
    r.append("  #");
    push_chars(&mut r, &decimal_chars(id as u64));
    r.append("  ");
    r.append(expr);
    assert(r@ =~= watch_list_msg(id, expr@));
    r
}

pub fn watch_value_string(id: u32, expr: &str, value: &str) -> (r: String)
    ensures
        r@ == watch_value_msg(id, expr@, value@),
{
    let mut r = String::new();
    r.append("  watch #");
    push_chars(&mut r, &decimal_chars(id as u64));
    r.append(": ");
    r.append(expr);
    r.append(" = ");
    push_chars(&mut r, &strip_line_end_chars(&chars_of(value)));
    assert(r@ =~= watch_value_msg(id, expr@, value@));
    r
}

pub fn inspect_code_string(name: &str) -> (r: String)
    ensures
        r@ == inspect_code(name@),
{
    let mut r = String::new();
    r.append("declare -p ");
    r.append(name);
    r.append(" 2>/dev/null || printf '%s: not set\\n' ");
    r.append(name);
    assert(r@ =~= inspect_code(name@));
    r
}

pub fn watch_code_string(expr: &str) -> (r: String)
    ensures
        r@ == watch_code(expr@),
{
    let mut r = String::new();
    r.append("echo ");
    r.append(expr);
    assert(r@ =~= watch_code(expr@));
    r
}

pub fn exit_status_string(pal: &Pal, status: i32) -> (r: String)
    ensures
        r@ == exit_status_msg(*pal, status),
{
    let mut r = String::new();
    r.append(pal.dim);
    r.append("(exit status ");
    push_chars(&mut r, &signed_decimal_chars(status));
    r.append(")");
    r.append(pal.reset);
    assert(r@ =~= exit_status_msg(*pal, status));
    r
}

pub fn unknown_string(verb: &str) -> (r: String)
    ensures
        r@ == unknown_msg(verb@),
{
    let mut r = String::new();
    r.append("unknown command '");
    r.append(verb);
    r.append("' — try 'h'");
    assert(r@ =~= unknown_msg(verb@));
    r
}

pub fn stop_header_string(pal: &Pal, src: &str, line: u32, depth: u32, bp: Option<u32>) -> (r:
    String)
    ensures
        r@ == stop_header_msg(*pal, src@, line, depth, bp),
{
    let mut r = String::new();
    r.append(pal.bold);
    r.append(src);
    r.append(":");
    push_chars(&mut r, &decimal_chars(line as u64));
    r.append(pal.reset);
    r.append(" ");
    r.append(pal.dim);
    r.append("[depth ");
    push_chars(&mut r, &decimal_chars(depth as u64));
    r.append("]");
    r.append(pal.reset);
    let mut tag = String::new();
    match bp {
        Some(id) => {
            tag.append(" ");
            tag.append(pal.red);
            tag.append("● breakpoint #");
            push_chars(&mut tag, &decimal_chars(id as u64));
            tag.append(pal.reset);
        },
        None => {},
    }
    r.append(tag.as_str());
    assert(r@ =~= stop_header_msg(*pal, src@, line, depth, bp));
    r
}

pub fn stop_command_string(pal: &Pal, cmd: &str) -> (r: String)
    ensures
        r@ == stop_command_msg(*pal, cmd@),
{
    let mut r = String::new();
    r.append("  ");
    r.append(pal.cyan);
    r.append("→ ");
    r.append(cmd);
    r.append(pal.reset);
    assert(r@ =~= stop_command_msg(*pal, cmd@));
    r
}

pub fn source_line_string(pal: &Pal, n: u32, cur: u32, text: &str) -> (r: String)
    ensures
        r@ == source_line_msg(*pal, n, cur, text@),
{
    let num = pad_left_chars(&decimal_chars(n as u64), 5);
    let mut r = String::new();
    if n == cur {
        r.append(pal.yellow);
        push_chars(&mut r, &num);
        r.append(" ▶ ");
        r.append(text);
        r.append(pal.reset);
    } else {
        r.append(pal.dim);
        push_chars(&mut r, &num);
        r.append(pal.reset);
        r.append("   ");
        r.append(text);
    }
    assert(r@ =~= source_line_msg(*pal, n, cur, text@));
    r
}

pub fn unreadable_string(pal: &Pal, file: &str) -> (r: String)
    ensures
        r@ == unreadable_msg(*pal, file@),
{
    let mut r = String::new();
    r.append(pal.dim);
    r.append("(source not readable: ");
    r.append(file);
    r.append(")");
    r.append(pal.reset);
    assert(r@ =~= unreadable_msg(*pal, file@));
    r
}

pub fn detach_string(pal: &Pal) -> (r: String)
    ensures
        r@ == detach_msg(*pal),
{
    let mut r = String::new();
    r.append(pal.dim);
    r.append("stdin closed — detaching, script continues");
    r.append(pal.reset);
    assert(r@ =~= detach_msg(*pal));
    r
}

} // verus!
