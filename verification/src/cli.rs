use vstd::prelude::*;
use vstd::string::*;
use crate::text::{chars_of, is_lit, string_from, string_views};

verus! {

/// The options of one run of the debugger.
pub struct Opts {
    pub script: String,
    pub script_args: Vec<String>,
    pub breaks: Vec<String>,
    pub run: bool,
    pub bash: String,
    pub color: bool,
}

pub struct OptsView {
    pub script: Seq<char>,
    pub script_args: Seq<Seq<char>>,
    pub breaks: Seq<Seq<char>>,
    pub run: bool,
    pub bash: Seq<char>,
    pub color: bool,
}

impl View for Opts {
    type V = OptsView;

    open spec fn view(&self) -> OptsView {
        OptsView {
            script: self.script@,
            script_args: string_views(self.script_args@),
            breaks: string_views(self.breaks@),
            run: self.run,
            bash: self.bash@,
            color: self.color,
        }
    }
}

/// What the command line asks for.
pub enum CliAction {
    /// Print the usage and exit with status 0.
    Help,
    /// Print the version and exit with status 0.
    Version,
    /// Report this message and exit with status 2.
    Fail(String),
    /// No script was named: print the usage and exit with status 2.
    Usage,
    /// Debug the script.
    Start(Opts),
}

pub enum CliView {
    Help,
    Version,
    Fail(Seq<char>),
    Usage,
    Start(OptsView),
}

impl View for CliAction {
    type V = CliView;

    open spec fn view(&self) -> CliView {
        match self {
            CliAction::Help => CliView::Help,
            CliAction::Version => CliView::Version,
            CliAction::Fail(m) => CliView::Fail(m@),
            CliAction::Usage => CliView::Usage,
            CliAction::Start(o) => CliView::Start(o@),
        }
    }
}

pub const MISSING_BREAK: &'static str = "option -b requires an argument";

pub const MISSING_BASH: &'static str = "option --bash requires an argument";

/// The meaning of `args[i..]`, given the options read before them. The first
/// argument that is no option names the script; all after it go to the
/// script.
pub open spec fn cli_from(args: Seq<Seq<char>>, i: int, o: OptsView) -> CliView
    decreases args.len() - i,
{
    if i < 0 || i >= args.len() {
        if o.script.len() == 0 {
            CliView::Usage
        } else {
            CliView::Start(o)
        }
    } else {
        let a = args[i];
        if a == "-h"@ || a == "--help"@ {
            CliView::Help
        } else if a == "-V"@ || a == "--version"@ {
            CliView::Version
        } else if a == "-b"@ || a == "--break"@ {
            if i + 1 < args.len() {
                cli_from(args, i + 2, OptsView { breaks: o.breaks.push(args[i + 1]), ..o })
            } else {
                CliView::Fail(MISSING_BREAK@)
            }
        } else if a == "--bash"@ {
            if i + 1 < args.len() {
                cli_from(args, i + 2, OptsView { bash: args[i + 1], ..o })
            } else {
                CliView::Fail(MISSING_BASH@)
            }
        } else if a == "-r"@ || a == "--run"@ {
            cli_from(args, i + 1, OptsView { run: true, ..o })
        } else if a == "--no-color"@ {
            cli_from(args, i + 1, OptsView { color: false, ..o })
        } else if a.len() == 0 {
            CliView::Usage
        } else {
            CliView::Start(OptsView { script: a, script_args: args.skip(i + 1), ..o })
        }
    }
}

/// The meaning of the command line `args` (the program name left out);
/// colors default to `color`.
pub open spec fn cli_of(args: Seq<Seq<char>>, color: bool) -> CliView {
    cli_from(
        args,
        0,
        OptsView {
            script: Seq::empty(),
            script_args: Seq::empty(),
            breaks: Seq::empty(),
            run: false,
            bash: "bash"@,
            color,
        },
    )
}

/// Reads the command line `args` (the program name left out); colors
/// default to `color`.
pub fn parse_args(args: &Vec<String>, color: bool) -> (r: CliAction)
    ensures
        r@ == cli_of(string_views(args@), color),
{
    let ghost sargs = string_views(args@);
    let mut o = Opts {
        script: String::new(),
        script_args: Vec::new(),
        breaks: Vec::new(),
        run: false,
        bash: string_from("bash"),
        color,
    };
    assert(o@ == (OptsView {
        script: Seq::empty(),
        script_args: Seq::empty(),
        breaks: Seq::empty(),
        run: false,
        bash: "bash"@,
        color,
    })) by {
        assert(o@.script_args =~= Seq::<Seq<char>>::empty());
        assert(o@.breaks =~= Seq::<Seq<char>>::empty());
    }
    let mut i: usize = 0;
    while i < args.len()
        invariant
            i <= args.len(),
            sargs == string_views(args@),
            cli_of(sargs, color) == cli_from(sargs, i as int, o@),
        decreases args.len() - i,
    {
        let a = chars_of(args[i].as_str());
        assert(a@ == sargs[i as int]);
        if is_lit(&a, "-h") || is_lit(&a, "--help") {
            return CliAction::Help;
        } else if is_lit(&a, "-V") || is_lit(&a, "--version") {
            return CliAction::Version;
        } else if is_lit(&a, "-b") || is_lit(&a, "--break") {
            if i + 1 < args.len() {
                let ghost before = o@;
                o.breaks.push(args[i + 1].clone());
                assert(o@.breaks =~= before.breaks.push(sargs[i + 1]));
                assert(o@ == (OptsView { breaks: before.breaks.push(sargs[i + 1]), ..before }));
                i += 2;
            } else {
                return CliAction::Fail(string_from(MISSING_BREAK));
            }
        } else if is_lit(&a, "--bash") {
            if i + 1 < args.len() {
                o.bash = args[i + 1].clone();
                i += 2;
            } else {
                return CliAction::Fail(string_from(MISSING_BASH));
            }
        } else if is_lit(&a, "-r") || is_lit(&a, "--run") {
            o.run = true;
            i += 1;
        } else if is_lit(&a, "--no-color") {
            o.color = false;
            i += 1;
        } else if a.len() == 0 {
            return CliAction::Usage;
        } else {
            let mut rest: Vec<String> = Vec::new();
            let mut j = i + 1;
            while j < args.len()
                invariant
                    i < j <= args.len(),
                    sargs == string_views(args@),
                    rest.len() == j - i - 1,
                    forall|k: int| 0 <= k < rest.len() ==> (#[trigger] rest@[k])@ == sargs[i + 1 + k],
                decreases args.len() - j,
            {
                rest.push(args[j].clone());
                j += 1;
            }
            assert(string_views(rest@) =~= sargs.subrange(i + 1, j as int));
            assert(sargs.subrange(i + 1, args.len() as int) =~= sargs.skip(i + 1));
            o.script = args[i].clone();
            o.script_args = rest;
            return CliAction::Start(o);
        }
    }
    if o.script.as_str().is_empty() {
        CliAction::Usage
    } else {
        CliAction::Start(o)
    }
}

} // verus!
