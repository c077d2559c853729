use vstd::prelude::*;
use vstd::string::*;
use crate::text::{chars_of, same, slice_of, strip_dot_slash, strip_dot_slash_chars};

verus! {

/// A path separator: `/` or `\`.
pub open spec fn is_sep(c: char) -> bool {
    c == '/' || c == '\\'
}

/// Index just after the last separator in `s`, or 0 when there is none.
pub open spec fn base_start(s: Seq<char>) -> int
    decreases s.len(),
{
    if s.len() == 0 {
        0
    } else if is_sep(s.last()) {
        s.len() as int
    } else {
        base_start(s.drop_last())
    }
}

/// The final component of a path: what follows its last separator.
pub open spec fn basename_of(s: Seq<char>) -> Seq<char> {
    s.subrange(base_start(s), s.len() as int)
}

pub proof fn lemma_base_start(s: Seq<char>)
    ensures
        0 <= base_start(s) <= s.len(),
        base_start(s) > 0 ==> is_sep(s[base_start(s) - 1]),
        forall|j: int| base_start(s) <= j < s.len() ==> !is_sep(#[trigger] s[j]),
    decreases s.len(),
{
    if s.len() > 0 && !is_sep(s.last()) {
        lemma_base_start(s.drop_last());
        assert forall|j: int| base_start(s) <= j < s.len() implies !is_sep(#[trigger] s[j]) by {
            if j < s.len() - 1 {
                assert(s.drop_last()[j] == s[j]);
            }
        }
    }
}

/// Whether `s` names a directory part: it holds a separator.
pub open spec fn has_dir(s: Seq<char>) -> bool {
    base_start(s) > 0
}

/// Loose path equality, after dropping leading `"./"`s: the same path, or the
/// same final component when either side carries no directory.
pub open spec fn same_script(a: Seq<char>, b: Seq<char>) -> bool {
    let x = strip_dot_slash(a);
    let y = strip_dot_slash(b);
    x == y || ((!has_dir(x) || !has_dir(y)) && basename_of(x) == basename_of(y))
}

fn base_start_of(s: &Vec<char>) -> (k: usize)
    ensures
        k == base_start(s@),
{
    let mut j = s.len();
    assert(s@.take(s.len() as int) =~= s@);
    while j > 0 && !(s[j - 1] == '/' || s[j - 1] == '\\')
        invariant
            j <= s.len(),
            base_start(s@) == base_start(s@.take(j as int)),
        decreases j,
    {
        assert(s@.take(j as int).drop_last() =~= s@.take(j - 1));
        j -= 1;
    }
    proof {
        if j > 0 {
            assert(s@.take(j as int).last() == s@[j - 1]);
        } else {
            assert(s@.take(0).len() == 0);
        }
        assert(s@.take(s.len() as int) =~= s@);
    }
    j
}

/// The final component of the path `p`: what follows its last `/` or `\`.
pub fn basename(p: &str) -> (r: &str)
    ensures
        r@ == basename_of(p@),
{
    let v = chars_of(p);
    let k = base_start_of(&v);
    proof {
        lemma_base_start(p@);
    }
    p.substring_char(k, v.len())
}

/// Loose path equality: exact match, or same basename when either side
/// carries no directory. `./demo.sh` and `demo.sh` agree.
pub fn paths_match(a: &str, b: &str) -> (r: bool)
    ensures
        r == same_script(a@, b@),
{
    let x = strip_dot_slash_chars(&chars_of(a));
    let y = strip_dot_slash_chars(&chars_of(b));
    if same(&x, &y) {
        return true;
    }
    let kx = base_start_of(&x);
    let ky = base_start_of(&y);
    if kx > 0 && ky > 0 {
        return false;
    }
    proof {
        lemma_base_start(x@);
        lemma_base_start(y@);
    }
    let bx = slice_of(&x, kx, x.len());
    let by = slice_of(&y, ky, y.len());
    same(&bx, &by)
}

// ------------------------------------------------------------------- laws

/// A basename holds no separator, so taking it again changes nothing.
pub proof fn law_basename_idempotent(p: Seq<char>)
    ensures
        !has_dir(basename_of(p)),
        basename_of(basename_of(p)) == basename_of(p),
{
    lemma_base_start(p);
    let b = basename_of(p);
    lemma_no_sep_base_start(b);
    assert(b.subrange(0, b.len() as int) =~= b);
}

proof fn lemma_no_sep_base_start(s: Seq<char>)
    requires
        forall|j: int| 0 <= j < s.len() ==> !is_sep(#[trigger] s[j]),
    ensures
        base_start(s) == 0,
    decreases s.len(),
{
    if s.len() > 0 {
        assert(!is_sep(s[s.len() - 1]));
        lemma_no_sep_base_start(s.drop_last());
    }
}

/// Every path matches itself.
pub proof fn law_paths_match_reflexive(a: Seq<char>)
    ensures
        same_script(a, a),
{
}

/// Path matching does not depend on the order of its arguments.
pub proof fn law_paths_match_symmetric(a: Seq<char>, b: Seq<char>)
    ensures
        same_script(a, b) == same_script(b, a),
{
}

/// A leading `"./"` never changes what a path matches.
pub proof fn law_paths_match_dot_slash(a: Seq<char>, b: Seq<char>)
    ensures
        same_script(seq!['.', '/'] + a, b) == same_script(a, b),
{
    let s = seq!['.', '/'] + a;
    assert(s.skip(2) =~= a);
}

} // verus!
