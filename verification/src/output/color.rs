//! A git-like color palette: green for success and additions, red for
//! errors and deletions, yellow for warnings, modifications and snapshot
//! ids, cyan and magenta for branch markers, bold for headers and dim for
//! secondary text. Coloring goes through the `colored` crate.

use vstd::prelude::*;
use colored::Colorize;
use crate::text::{owned, push_char, str_eq};

verus! {

/// `colored::control::set_override`: forces coloring on or off for the
/// whole process. Nothing is stated: it only changes `colored`'s state.
#[verifier::external_body]
fn set_color_override(enabled: bool) {
    colored::control::set_override(enabled);
}

/// `Colorize::green` then `to_string`. Nothing is stated of the text: it
/// depends on `colored`'s process-wide coloring state.
#[verifier::external_body]
fn paint_green(s: &str) -> String {
    s.green().to_string()
}

/// `Colorize::red` then `to_string` (see [`paint_green`]).
#[verifier::external_body]
fn paint_red(s: &str) -> String {
    s.red().to_string()
}

/// `Colorize::yellow` then `to_string` (see [`paint_green`]).
#[verifier::external_body]
fn paint_yellow(s: &str) -> String {
    s.yellow().to_string()
}

/// `Colorize::cyan` then `to_string` (see [`paint_green`]).
#[verifier::external_body]
fn paint_cyan(s: &str) -> String {
    s.cyan().to_string()
}

/// `Colorize::magenta` then `to_string` (see [`paint_green`]).
#[verifier::external_body]
fn paint_magenta(s: &str) -> String {
    s.magenta().to_string()
}

/// `Colorize::blue` then `to_string` (see [`paint_green`]).
#[verifier::external_body]
fn paint_blue(s: &str) -> String {
    s.blue().to_string()
}

/// `Colorize::bold` then `to_string` (see [`paint_green`]).
#[verifier::external_body]
fn paint_bold(s: &str) -> String {
    s.bold().to_string()
}

/// `Colorize::dimmed` then `to_string` (see [`paint_green`]).
#[verifier::external_body]
fn paint_dimmed(s: &str) -> String {
    s.dimmed().to_string()
}

/// Colors text, or passes it through unchanged when disabled.
pub struct Colorizer {
    enabled: bool,
}

/// `s` left-aligned in a field of `w` characters (`format!("{:<w$}")`).
pub open spec fn pad_right(s: Seq<char>, w: nat) -> Seq<char> {
    if s.len() >= w {
        s
    } else {
        s + Seq::new((w - s.len()) as nat, |i: int| ' ')
    }
}

/// `s` right-aligned in a field of `w` characters (`format!("{:>w$}")`).
pub open spec fn pad_left(s: Seq<char>, w: nat) -> Seq<char> {
    if s.len() >= w {
        s
    } else {
        Seq::new((w - s.len()) as nat, |i: int| ' ') + s
    }
}

/// Pads `s` with spaces on the right to `w` characters.
pub fn padded_right(s: &str, w: usize) -> (r: String)
    ensures
        r@ == pad_right(s@, w as nat),
{
    let mut out = owned(s);
    let n = s.unicode_len();
    let mut k: usize = n;
    while k < w
        invariant
            n == s@.len(),
            n <= k <= w || (n > w && k == n),
            out@ == s@ + Seq::new((k - n) as nat, |i: int| ' '),
        decreases w - k,
    {
        push_char(&mut out, ' ');
        assert(out@ =~= s@ + Seq::new((k + 1 - n) as nat, |i: int| ' '));
        k = k + 1;
    }
    if n >= w {
        assert(out@ =~= s@);
    }
    out
}

/// Pads `s` with spaces on the left to `w` characters.
pub fn padded_left(s: &str, w: usize) -> (r: String)
    ensures
        r@ == pad_left(s@, w as nat),
{
    let n = s.unicode_len();
    let mut out = String::new();
    let mut k: usize = n;
    while k < w
        invariant
            n == s@.len(),
            n <= k <= w || (n > w && k == n),
            out@ == Seq::new((k - n) as nat, |i: int| ' '),
        decreases w - k,
    {
        push_char(&mut out, ' ');
        assert(out@ =~= Seq::new((k + 1 - n) as nat, |i: int| ' '));
        k = k + 1;
    }
    crate::text::push_str(&mut out, s);
    if n >= w {
        assert(out@ =~= s@);
    }
    out
}

impl Colorizer {
    pub closed spec fn is_enabled(&self) -> bool {
        self.enabled
    }

    /// A colorizer; also switches `colored`'s coloring on or off.
    pub fn new(e: bool) -> (r: Colorizer)
        ensures
            r.is_enabled() == e,
    {
        set_color_override(e);
        Colorizer { enabled: e }
    }

    pub fn enabled(&self) -> (r: bool)
        ensures
            r == self.is_enabled(),
    {
        self.enabled
    }

    /// Green text when enabled; `s` unchanged otherwise.
    pub fn green(&self, s: &str) -> (r: String)
        ensures
            !self.is_enabled() ==> r@ == s@,
    {
        if self.enabled { paint_green(s) } else { owned(s) }
    }

    /// Red text when enabled; `s` unchanged otherwise.
    pub fn red(&self, s: &str) -> (r: String)
        ensures
            !self.is_enabled() ==> r@ == s@,
    {
        if self.enabled { paint_red(s) } else { owned(s) }
    }

    /// Yellow text when enabled; `s` unchanged otherwise.
    pub fn yellow(&self, s: &str) -> (r: String)
        ensures
            !self.is_enabled() ==> r@ == s@,
    {
        if self.enabled { paint_yellow(s) } else { owned(s) }
    }

    /// Cyan text when enabled; `s` unchanged otherwise.
    pub fn cyan(&self, s: &str) -> (r: String)
        ensures
            !self.is_enabled() ==> r@ == s@,
    {
        if self.enabled { paint_cyan(s) } else { owned(s) }
    }

    /// Magenta text when enabled; `s` unchanged otherwise.
    pub fn magenta(&self, s: &str) -> (r: String)
        ensures
            !self.is_enabled() ==> r@ == s@,
    {
        if self.enabled { paint_magenta(s) } else { owned(s) }
    }

    /// Blue text when enabled; `s` unchanged otherwise.
    pub fn blue(&self, s: &str) -> (r: String)
        ensures
            !self.is_enabled() ==> r@ == s@,
    {
        if self.enabled { paint_blue(s) } else { owned(s) }
    }

    /// Bold text when enabled; `s` unchanged otherwise.
    pub fn bold(&self, s: &str) -> (r: String)
        ensures
            !self.is_enabled() ==> r@ == s@,
    {
        if self.enabled { paint_bold(s) } else { owned(s) }
    }

    /// Dimmed text when enabled; `s` unchanged otherwise.
    pub fn dim(&self, s: &str) -> (r: String)
        ensures
            !self.is_enabled() ==> r@ == s@,
    {
        if self.enabled { paint_dimmed(s) } else { owned(s) }
    }

    /// A git-style status label padded to 8 characters: green `added`,
    /// red `deleted`, yellow `modified`, dim otherwise.
    pub fn status_label(&self, kind: &str) -> (r: String)
        ensures
            !self.is_enabled() ==> r@ == pad_right(kind@, 8),
    {
        let padded = padded_right(kind, 8);
        if str_eq(kind, "added") {
            self.green(padded.as_str())
        } else if str_eq(kind, "deleted") {
            self.red(padded.as_str())
        } else if str_eq(kind, "modified") {
            self.yellow(padded.as_str())
        } else {
            self.dim(padded.as_str())
        }
    }
}

} // verus!
