use vstd::prelude::*;
use vstd::string::*;
use crate::numbers::{parse_u32, parse_u32_chars};
use crate::text::{
    cat, chars_of, first_ws, first_ws_from, is_lit, lemma_first_ws_from, slice_of, string_of,
    trim, trim_chars,
};

verus! {

/// A command typed at the `(tdb)` prompt.
pub enum Command {
    Step,
    Next,
    Finish,
    Continue,
    /// `u <line>`; `None` when the line is missing or not a number.
    Until(Option<u32>),
    Quit,
    /// `b <spec>`, with the spec as typed.
    Break(String),
    ListBreaks,
    /// `d <id>`; `None` when the id is missing or not a number.
    Delete(Option<u32>),
    /// `p <var>...`, with the names as typed.
    Print(String),
    /// `x <code>`, `eval <code>`, `! <code>`, or bash glued to a `!`:
    /// `!<code>`.
    Eval(String),
    Backtrace,
    /// `l [line]`; `None` when no number follows.
    List(Option<u32>),
    Help,
    /// `w <bash-expr>`.
    Watch(String),
    ListWatches,
    /// `wd <id>`.
    DeleteWatch(Option<u32>),
    Unknown(String),
}

pub enum CommandView {
    Step,
    Next,
    Finish,
    Continue,
    Until(Option<u32>),
    Quit,
    Break(Seq<char>),
    ListBreaks,
    Delete(Option<u32>),
    Print(Seq<char>),
    Eval(Seq<char>),
    Backtrace,
    List(Option<u32>),
    Help,
    Watch(Seq<char>),
    ListWatches,
    DeleteWatch(Option<u32>),
    Unknown(Seq<char>),
}

impl View for Command {
    type V = CommandView;

    open spec fn view(&self) -> CommandView {
        match self {
            Command::Step => CommandView::Step,
            Command::Next => CommandView::Next,
            Command::Finish => CommandView::Finish,
            Command::Continue => CommandView::Continue,
            Command::Until(n) => CommandView::Until(*n),
            Command::Quit => CommandView::Quit,
            Command::Break(s) => CommandView::Break(s@),
            Command::ListBreaks => CommandView::ListBreaks,
            Command::Delete(n) => CommandView::Delete(*n),
            Command::Print(s) => CommandView::Print(s@),
            Command::Eval(s) => CommandView::Eval(s@),
            Command::Backtrace => CommandView::Backtrace,
            Command::List(n) => CommandView::List(*n),
            Command::Help => CommandView::Help,
            Command::Watch(s) => CommandView::Watch(s@),
            Command::ListWatches => CommandView::ListWatches,
            Command::DeleteWatch(n) => CommandView::DeleteWatch(*n),
            Command::Unknown(s) => CommandView::Unknown(s@),
        }
    }
}

/// The line acted upon: the input trimmed, or the last motion command when
/// the input is blank (enter repeats it).
pub open spec fn effective_input(input: Seq<char>, last_motion: Seq<char>) -> Seq<char> {
    let t = trim(input);
    if t.len() == 0 {
        last_motion
    } else {
        t
    }
}

/// The verb: what stands before the first whitespace.
pub open spec fn verb_of(t: Seq<char>) -> Seq<char> {
    t.take(first_ws_from(t, 0))
}

/// The argument: what follows the first whitespace, trimmed.
pub open spec fn rest_of(t: Seq<char>) -> Seq<char> {
    let k = first_ws_from(t, 0);
    if k < t.len() {
        trim(t.skip(k + 1))
    } else {
        Seq::empty()
    }
}

/// The command that the line `input` asks for.
pub open spec fn command_of(input: Seq<char>, last_motion: Seq<char>) -> CommandView {
    let t = effective_input(input, last_motion);
    let v = verb_of(t);
    let r = rest_of(t);
    if v == "s"@ || v == "step"@ {
        CommandView::Step
    } else if v == "n"@ || v == "next"@ {
        CommandView::Next
    } else if v == "f"@ || v == "finish"@ {
        CommandView::Finish
    } else if v == "c"@ || v == "continue"@ {
        CommandView::Continue
    } else if v == "u"@ {
        CommandView::Until(parse_u32(r))
    } else if v == "q"@ || v == "quit"@ {
        CommandView::Quit
    } else if v == "b"@ || v == "break"@ {
        CommandView::Break(r)
    } else if v == "bl"@ || v == "breaks"@ {
        CommandView::ListBreaks
    } else if v == "d"@ || v == "delete"@ {
        CommandView::Delete(parse_u32(r))
    } else if v == "p"@ || v == "print"@ {
        CommandView::Print(r)
    } else if v == "x"@ || v == "eval"@ || v == "!"@ {
        CommandView::Eval(r)
    } else if v == "bt"@ || v == "where"@ {
        CommandView::Backtrace
    } else if v == "l"@ || v == "list"@ {
        CommandView::List(parse_u32(r))
    } else if v == "h"@ || v == "help"@ || v == "?"@ {
        CommandView::Help
    } else if v == "w"@ {
        CommandView::Watch(r)
    } else if v == "wl"@ {
        CommandView::ListWatches
    } else if v == "wd"@ {
        CommandView::DeleteWatch(parse_u32(r))
    } else if v.len() > 0 && v[0] == '!' {
        CommandView::Eval(trim(v.skip(1) + seq![' '] + r))
    } else {
        CommandView::Unknown(v)
    }
}

/// Reads a line typed at the prompt; a blank line repeats `last_motion`.
pub fn parse_command(input: &str, last_motion: &str) -> (c: Command)
    ensures
        c@ == command_of(input@, last_motion@),
{
    let trimmed = trim_chars(&chars_of(input));
    let t = if trimmed.len() == 0 { chars_of(last_motion) } else { trimmed };
    let k = first_ws(&t);
    proof {
        lemma_first_ws_from(t@, 0);
    }
    let v = slice_of(&t, 0, k);
    assert(v@ =~= verb_of(t@));
    let r = if k < t.len() {
        let tail = slice_of(&t, k + 1, t.len());
        assert(tail@ =~= t@.skip(k + 1));
        trim_chars(&tail)
    } else {
        Vec::new()
    };
    assert(r@ =~= rest_of(t@));
    if is_lit(&v, "s") || is_lit(&v, "step") {
        Command::Step
    } else if is_lit(&v, "n") || is_lit(&v, "next") {
        Command::Next
    } else if is_lit(&v, "f") || is_lit(&v, "finish") {
        Command::Finish
    } else if is_lit(&v, "c") || is_lit(&v, "continue") {
        Command::Continue
    } else if is_lit(&v, "u") {
        Command::Until(parse_u32_chars(&r))
    } else if is_lit(&v, "q") || is_lit(&v, "quit") {
        Command::Quit
    } else if is_lit(&v, "b") || is_lit(&v, "break") {
        Command::Break(string_of(&r))
    } else if is_lit(&v, "bl") || is_lit(&v, "breaks") {
        Command::ListBreaks
    } else if is_lit(&v, "d") || is_lit(&v, "delete") {
        Command::Delete(parse_u32_chars(&r))
    } else if is_lit(&v, "p") || is_lit(&v, "print") {
        Command::Print(string_of(&r))
    } else if is_lit(&v, "x") || is_lit(&v, "eval") || is_lit(&v, "!") {
        Command::Eval(string_of(&r))
    } else if is_lit(&v, "bt") || is_lit(&v, "where") {
        Command::Backtrace
    } else if is_lit(&v, "l") || is_lit(&v, "list") {
        Command::List(parse_u32_chars(&r))
    } else if is_lit(&v, "h") || is_lit(&v, "help") || is_lit(&v, "?") {
        Command::Help
    } else if is_lit(&v, "w") {
        Command::Watch(string_of(&r))
    } else if is_lit(&v, "wl") {
        Command::ListWatches
    } else if is_lit(&v, "wd") {
        Command::DeleteWatch(parse_u32_chars(&r))
    } else if v.len() > 0 && v[0] == '!' {
        let mut code = slice_of(&v, 1, v.len());
        code.push(' ');
        let full = cat(&code, &r);
        assert(full@ =~= v@.skip(1) + seq![' '] + r@);
        Command::Eval(string_of(&trim_chars(&full)))
    } else {
        Command::Unknown(string_of(&v))
    }
}

} // verus!
