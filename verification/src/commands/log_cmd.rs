//! Plain-value helpers of the `log` subcommand.

use vstd::prelude::*;
use crate::output::color::Colorizer;
use crate::text::{push_str, str_eq};

verus! {

/// How one branch name is shown: the current branch starred (and green),
/// the others dim.
pub open spec fn branch_mark(b: Seq<char>, cur: Option<Seq<char>>) -> Seq<char> {
    if cur == Some(b) { "*"@ + b } else { b }
}

/// The first `n` branch marks joined with `", "`.
pub open spec fn branch_marks_upto(br: Seq<Seq<char>>, cur: Option<Seq<char>>, n: int) -> Seq<char>
    decreases n,
{
    if n <= 0 {
        Seq::empty()
    } else if n == 1 {
        branch_mark(br[0], cur)
    } else {
        branch_marks_upto(br, cur, n - 1) + ", "@ + branch_mark(br[n - 1], cur)
    }
}

/// The branch list printed beside a snapshot: empty when no branch points
/// at it, else `[a, *b, c]`.
pub open spec fn branch_list_text(br: Seq<Seq<char>>, cur: Option<Seq<char>>) -> Seq<char> {
    if br.len() == 0 {
        Seq::empty()
    } else {
        "["@ + branch_marks_upto(br, cur, br.len() as int) + "]"@
    }
}

pub open spec fn opt_view(o: Option<String>) -> Option<Seq<char>> {
    match o {
        Some(s) => Some(s@),
        None => None,
    }
}

/// The branch names that point at a snapshot, the current one starred.
/// Without color the text is exactly [`branch_list_text`]; with color the
/// names are painted, and it is empty exactly when `br` is.
pub fn fmt_b(br: &[String], cur: &Option<String>, c: &Colorizer) -> (r: String)
    ensures
        !c.is_enabled() ==> r@ == branch_list_text(br@.map_values(|s: String| s@), opt_view(*cur)),
        br@.len() == 0 ==> r@.len() == 0,
{
    let ghost names = br@.map_values(|s: String| s@);
    let ghost cv = opt_view(*cur);
    if br.len() == 0 {
        return String::new();
    }
    let mut out = String::from_str("[");
    let mut i: usize = 0;
    assert(out@ =~= "["@ + branch_marks_upto(names, cv, 0));
    while i < br.len()
        invariant
            names == br@.map_values(|s: String| s@),
            cv == opt_view(*cur),
            br@.len() > 0,
            i <= br@.len(),
            !c.is_enabled() ==> out@ == "["@ + branch_marks_upto(names, cv, i as int),
        decreases br.len() - i,
    {
        if i > 0 {
            push_str(&mut out, ", ");
        }
        let b = &br[i];
        let is_cur = match cur {
            Some(x) => str_eq(x.as_str(), b.as_str()),
            None => false,
        };
        if is_cur {
            let g = c.green(b.as_str());
            push_str(&mut out, "*");
            push_str(&mut out, g.as_str());
        } else {
            let d = c.dim(b.as_str());
            push_str(&mut out, d.as_str());
        }
        proof {
            assert(names[i as int] == b@);
            if !c.is_enabled() {
                assert(is_cur == (cv == Some(names[i as int])));
                if i == 0 {
                    assert("["@ + branch_marks_upto(names, cv, 1) =~= out@);
                } else {
                    assert("["@ + branch_marks_upto(names, cv, i + 1) =~= out@);
                }
            }
        }
        i = i + 1;
    }
    push_str(&mut out, "]");
    out
}

} // verus!
