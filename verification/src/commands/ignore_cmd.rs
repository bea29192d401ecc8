//! Editing a game's ignore file.

use vstd::prelude::*;
use crate::ignore_mod::{str_lines, text_lines};
use crate::text::{push_str, str_eq, texts, trim, trim_seq};

verus! {

/// Lines joined with `'\n'` between them.
pub open spec fn join_lines(ls: Seq<Seq<char>>) -> Seq<char>
    decreases ls.len(),
{
    if ls.len() == 0 {
        Seq::empty()
    } else if ls.len() == 1 {
        ls[0]
    } else {
        join_lines(ls.drop_last()) + seq!['\n'] + ls.last()
    }
}

/// The lines (before `n`) that do not equal `pattern` once both are
/// trimmed.
pub open spec fn lines_kept(ls: Seq<Seq<char>>, pattern: Seq<char>, n: int) -> Seq<Seq<char>>
    decreases n,
{
    if n <= 0 {
        Seq::empty()
    } else {
        let p = lines_kept(ls, pattern, n - 1);
        if trim_seq(ls[n - 1]) == trim_seq(pattern) { p } else { p.push(ls[n - 1]) }
    }
}

/// The new text of an ignore file after `--remove pattern`: every line
/// that matches the pattern (both trimmed) is dropped, and the rest end
/// with a line break.
pub open spec fn removed_text(contents: Seq<char>, pattern: Seq<char>) -> Seq<char> {
    let ls = str_lines(contents);
    join_lines(lines_kept(ls, pattern, ls.len() as int)) + seq!['\n']
}

/// The text of an ignore file with `pattern` removed.
pub fn remove_pattern_text(contents: &str, pattern: &str) -> (r: String)
    ensures
        r@ == removed_text(contents@, pattern@),
{
    let lines = text_lines(contents);
    let ghost ls = texts(lines@);
    let p = trim(pattern);
    let mut out = String::new();
    let mut any_kept = false;
    let mut i: usize = 0;
    while i < lines.len()
        invariant
            i <= lines@.len(),
            ls == texts(lines@),
            p@ == trim_seq(pattern@),
            any_kept == (lines_kept(ls, pattern@, i as int).len() > 0),
            out@ == join_lines(lines_kept(ls, pattern@, i as int)),
        decreases lines@.len() - i,
    {
        let l = lines[i].as_str();
        proof {
            assert(ls[i as int] == l@);
        }
        if !str_eq(trim(l), p) {
            let ghost prev = lines_kept(ls, pattern@, i as int);
            if any_kept {
                push_str(&mut out, "\n");
                proof {
                    reveal_strlit("\n");
                }
            }
            push_str(&mut out, l);
            proof {
                let now = lines_kept(ls, pattern@, i + 1);
                assert(now == prev.push(l@));
                assert(now.drop_last() =~= prev);
                if !any_kept {
                    assert(prev.len() == 0);
                    assert(out@ =~= join_lines(now));
                } else {
                    assert(out@ =~= join_lines(now));
                }
            }
            any_kept = true;
        }
        i = i + 1;
    }
    proof {
        reveal_strlit("\n");
        assert(ls =~= str_lines(contents@));
    }
    push_str(&mut out, "\n");
    out
}

} // verus!
