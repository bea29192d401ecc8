//! Elevation: defragmentation needs administrator rights.

use vstd::prelude::*;
use crate::error::GError;
use crate::text::push_char;

verus! {

#[derive(Debug, Clone, Copy, PartialEq, Eq, Structural)]
pub enum ElevationToken {
    Elevated,
    NotElevated,
}

/// Whether the process runs elevated. Token elevation is a Windows notion;
/// on this platform the process is never elevated.
pub fn is_elevated() -> (r: Result<ElevationToken, GError>)
    ensures
        r == Ok::<ElevationToken, GError>(ElevationToken::NotElevated),
{
    Ok(ElevationToken::NotElevated)
}

/// Re-launches the program elevated (UAC). On this platform it reports
/// that the platform is not supported.
pub fn request_elevation() -> (r: Result<bool, GError>)
    ensures
        r matches Err(GError::NotSupportedPlatform),
{
    Err(GError::NotSupportedPlatform)
}

/// `n` backslashes.
pub open spec fn backslashes(n: nat) -> Seq<char> {
    Seq::new(n, |i: int| '\\')
}

/// The escaped body of one quoted argument, `b` being the number of
/// backslashes just seen: a quote doubles the backslashes before it and is
/// itself escaped; backslashes before the closing quote are doubled.
pub open spec fn quote_body(s: Seq<char>, b: nat) -> Seq<char>
    decreases s.len(),
{
    if s.len() == 0 {
        backslashes(b)
    } else if s[0] == '\\' {
        seq!['\\'] + quote_body(s.drop_first(), b + 1)
    } else if s[0] == '"' {
        backslashes(b) + seq!['\\', '"'] + quote_body(s.drop_first(), 0)
    } else {
        seq![s[0]] + quote_body(s.drop_first(), 0)
    }
}

/// One argument wrapped in quotes the way `CommandLineToArgvW` reads it.
pub open spec fn quote_arg(s: Seq<char>) -> Seq<char> {
    seq!['"'] + quote_body(s, 0) + seq!['"']
}

/// All arguments quoted and separated by single spaces.
pub open spec fn joined_args(args: Seq<Seq<char>>) -> Seq<char>
    decreases args.len(),
{
    if args.len() == 0 {
        Seq::empty()
    } else if args.len() == 1 {
        quote_arg(args[0])
    } else {
        joined_args(args.drop_last()) + seq![' '] + quote_arg(args.last())
    }
}

fn push_backslashes(out: &mut String, n: usize)
    ensures
        final(out)@ == old(out)@ + backslashes(n as nat),
{
    let mut k: usize = 0;
    while k < n
        invariant
            k <= n,
            out@ == old(out)@ + backslashes(k as nat),
        decreases n - k,
    {
        push_char(out, '\\');
        assert(out@ =~= old(out)@ + backslashes((k + 1) as nat));
        k = k + 1;
    }
}

fn push_quoted(out: &mut String, arg: &str)
    ensures
        final(out)@ == old(out)@ + quote_arg(arg@),
{
    let n = arg.unicode_len();
    push_char(out, '"');
    let ghost start = out@;
    let mut b: usize = 0;
    let mut i: usize = 0;
    assert(arg@.subrange(0, n as int) =~= arg@);
    while i < n
        invariant
            n == arg@.len(),
            i <= n,
            b <= i,
            start == old(out)@.push('"'),
            out@ + quote_body(arg@.subrange(i as int, n as int), b as nat) == start + quote_body(arg@, 0),
        decreases n - i,
    {
        let c = arg.get_char(i);
        let ghost rest = arg@.subrange(i as int, n as int);
        assert(rest[0] == c);
        assert(rest.drop_first() =~= arg@.subrange(i + 1, n as int));
        if c == '\\' {
            push_char(out, '\\');
            b = b + 1;
            assert(out@ + quote_body(arg@.subrange(i + 1, n as int), b as nat) =~= start + quote_body(arg@, 0));
        } else if c == '"' {
            let ghost before = out@;
            push_backslashes(out, b);
            push_char(out, '\\');
            push_char(out, '"');
            assert(out@ =~= before + backslashes(b as nat) + seq!['\\', '"']);
            b = 0;
            assert(out@ + quote_body(arg@.subrange(i + 1, n as int), 0) =~= start + quote_body(arg@, 0));
        } else {
            push_char(out, c);
            b = 0;
            assert(out@ + quote_body(arg@.subrange(i + 1, n as int), 0) =~= start + quote_body(arg@, 0));
        }
        i = i + 1;
    }
    assert(arg@.subrange(n as int, n as int) =~= Seq::<char>::empty());
    push_backslashes(out, b);
    push_char(out, '"');
    assert(out@ =~= old(out)@ + quote_arg(arg@));
}

/// Quotes and joins program arguments for a Windows command line: every
/// argument is quoted, embedded quotes are escaped and the backslashes
/// before them doubled, and trailing backslashes are doubled.
pub fn join_args(args: &[String]) -> (r: String)
    ensures
        r@ == joined_args(args@.map_values(|a: String| a@)),
{
    let ghost views = args@.map_values(|a: String| a@);
    let mut out = String::new();
    let mut i: usize = 0;
    while i < args.len()
        invariant
            i <= args@.len(),
            views == args@.map_values(|a: String| a@),
            out@ == joined_args(views.subrange(0, i as int)),
        decreases args@.len() - i,
    {
        let ghost before = out@;
        if i > 0 {
            push_char(&mut out, ' ');
        }
        push_quoted(&mut out, args[i].as_str());
        proof {
            let pre = views.subrange(0, i + 1);
            assert(pre.drop_last() =~= views.subrange(0, i as int));
            assert(pre.last() == args@[i as int]@);
            if i == 0 {
                assert(out@ =~= joined_args(pre));
            } else {
                assert(out@ =~= joined_args(pre));
            }
        }
        i = i + 1;
    }
    assert(views.subrange(0, args@.len() as int) =~= views);
    out
}

} // verus!
