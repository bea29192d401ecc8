//! The decisions that the subcommands make on plain values: argument
//! checks, which directories a target covers, and the labels and texts
//! they print. Running a subcommand (files, database, terminal) happens
//! outside the library.

pub mod add;
pub mod branch;
pub mod compact;
pub mod config_cmd;
pub mod defrag;
pub mod gc;
pub mod ignore_cmd;
pub mod log_cmd;
pub mod restore;
pub mod snap;

use vstd::prelude::*;
use crate::cli::Command;

verus! {

/// The `--threads` value of the subcommands that take one.
pub open spec fn command_threads(cmd: Command) -> Option<usize> {
    match cmd {
        Command::Snap { threads, .. } => threads,
        Command::Restore { threads, .. } => threads,
        Command::Status { threads, .. } => threads,
        Command::Compact { threads, .. } => threads,
        _ => None,
    }
}

/// The thread count to configure before running `cmd`: its `--threads`
/// for `snap`, `restore`, `status` and `compact`, else none.
pub fn threads_from_command(cmd: &Command) -> (r: Option<usize>)
    ensures
        r == command_threads(*cmd),
{
    match cmd {
        Command::Snap { threads, .. } => *threads,
        Command::Restore { threads, .. } => *threads,
        Command::Status { threads, .. } => *threads,
        Command::Compact { threads, .. } => *threads,
        _ => None,
    }
}

/// `true` for the characters allowed in an alias or a snapshot id.
pub open spec fn name_char_ok(c: char) -> bool {
    crate::text::is_ascii_alnum(c) || c == '_' || c == '-' || c == '.'
}

/// `true` when every character of `s` is allowed in a name.
pub open spec fn all_name_chars(s: Seq<char>) -> bool {
    forall|i: int| 0 <= i < s.len() ==> name_char_ok(#[trigger] s[i])
}

/// `name_char_ok`, executable.
pub fn is_name_char(c: char) -> (r: bool)
    ensures
        r == name_char_ok(c),
{
    ('a' <= c && c <= 'z') || ('A' <= c && c <= 'Z') || ('0' <= c && c <= '9') || c == '_'
        || c == '-' || c == '.'
}

/// Whether every character of `s` is allowed in a name.
pub fn only_name_chars(s: &str) -> (r: bool)
    ensures
        r == all_name_chars(s@),
{
    let n = s.unicode_len();
    let mut i: usize = 0;
    while i < n
        invariant
            n == s@.len(),
            i <= n,
            forall|j: int| 0 <= j < i ==> name_char_ok(#[trigger] s@[j]),
        decreases n - i,
    {
        if !is_name_char(s.get_char(i)) {
            return false;
        }
        i = i + 1;
    }
    true
}

} // verus!
