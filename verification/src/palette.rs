use vstd::prelude::*;

verus! {

/// ANSI color codes used to decorate output; all empty when colors are off.
pub struct Pal {
    pub dim: &'static str,
    pub bold: &'static str,
    pub red: &'static str,
    pub green: &'static str,
    pub yellow: &'static str,
    pub cyan: &'static str,
    pub reset: &'static str,
}

impl Pal {
    /// Whether every code of the palette is empty.
    pub open spec fn is_plain(&self) -> bool {
        &&& self.dim@ == Seq::<char>::empty()
        &&& self.bold@ == Seq::<char>::empty()
        &&& self.red@ == Seq::<char>::empty()
        &&& self.green@ == Seq::<char>::empty()
        &&& self.yellow@ == Seq::<char>::empty()
        &&& self.cyan@ == Seq::<char>::empty()
        &&& self.reset@ == Seq::<char>::empty()
    }

    /// Whether the palette holds the ANSI escape of each color.
    pub open spec fn is_ansi(&self) -> bool {
        &&& self.dim@ == "\x1b[2m"@
        &&& self.bold@ == "\x1b[1m"@
        &&& self.red@ == "\x1b[31m"@
        &&& self.green@ == "\x1b[32m"@
        &&& self.yellow@ == "\x1b[33m"@
        &&& self.cyan@ == "\x1b[36m"@
        &&& self.reset@ == "\x1b[0m"@
    }

    /// The ANSI palette when `on`, the plain one otherwise.
    pub fn new(on: bool) -> (p: Self)
        ensures
            on ==> p.is_ansi(),
            !on ==> p.is_plain(),
    {
        if on {
            Pal {
                dim: "\x1b[2m",
                bold: "\x1b[1m",
                red: "\x1b[31m",
                green: "\x1b[32m",
                yellow: "\x1b[33m",
                cyan: "\x1b[36m",
                reset: "\x1b[0m",
            }
        } else {
            proof {
                reveal_strlit("");
                assert(""@.len() == 0);
                assert(""@ =~= Seq::<char>::empty());
            }
            Pal { dim: "", bold: "", red: "", green: "", yellow: "", cyan: "", reset: "" }
        }
    }
}

} // verus!
