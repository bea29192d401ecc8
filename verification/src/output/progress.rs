//! The text of progress lines: a spinner (unknown total) or a bar (known
//! total), and the one-line summary when a phase finishes. Drawing them
//! on the terminal, from a background thread, is outside the library.

use vstd::prelude::*;
use crate::output::color::{pad_left, pad_right, padded_left, padded_right};
use crate::text::{dec_seq, owned, push_char, push_str, u64_to_dec};

verus! {

pub const ANSI_RESET: &'static str = "\x1b[0m";
pub const ANSI_BOLD: &'static str = "\x1b[1m";
pub const ANSI_DIM: &'static str = "\x1b[2m";
pub const ANSI_GREEN: &'static str = "\x1b[32m";
pub const ANSI_YELLOW: &'static str = "\x1b[33m";
pub const ANSI_CYAN: &'static str = "\x1b[36m";
pub const ANSI_WHITE: &'static str = "\x1b[37m";

/// Width of the bar in characters.
pub const BAR_WIDTH: usize = 30;

/// Spinner frames, ASCII only (they render on every terminal).
pub fn spinner_frames() -> (r: Vec<&'static str>)
    ensures
        r@.map_values(|s: &'static str| s@) == seq!["|"@, "/"@, "-"@, "\\"@],
{
    let mut r: Vec<&'static str> = Vec::new();
    r.push("|");
    r.push("/");
    r.push("-");
    r.push("\\");
    assert(r@.map_values(|s: &'static str| s@) =~= seq!["|"@, "/"@, "-"@, "\\"@]);
    r
}

/// The first `k` digits of `d` with a comma before every digit that
/// starts a group of three counted from the right.
pub open spec fn grouped(d: Seq<char>, k: int) -> Seq<char>
    decreases k,
{
    if k <= 0 {
        Seq::empty()
    } else {
        let p = grouped(d, k - 1);
        let i = k - 1;
        if i > 0 && (d.len() - i) % 3 == 0 {
            p.push(',').push(d[i])
        } else {
            p.push(d[i])
        }
    }
}

/// `n` in decimal with thousands separators (`12345` as `12,345`).
pub open spec fn count_text(n: u64) -> Seq<char> {
    grouped(dec_seq(n as nat), dec_seq(n as nat).len() as int)
}

/// Formats `n` with thousands separators.
pub fn format_count(n: u64) -> (r: String)
    ensures
        r@ == count_text(n),
{
    let s = u64_to_dec(n);
    let d = s.as_str();
    let len = d.unicode_len();
    let mut out = String::new();
    let mut i: usize = 0;
    while i < len
        invariant
            len == d@.len(),
            d@ == dec_seq(n as nat),
            i <= len,
            out@ == grouped(d@, i as int),
        decreases len - i,
    {
        let c = d.get_char(i);
        if i > 0 && (len - i) % 3 == 0 {
            push_char(&mut out, ',');
        }
        push_char(&mut out, c);
        i = i + 1;
    }
    out
}

/// `s` between `code` and a reset when coloring, else `s` alone.
pub open spec fn colored_text(code: Seq<char>, s: Seq<char>, use_color: bool) -> Seq<char> {
    if use_color { code + s + ANSI_RESET@ } else { s }
}

fn push_colored(out: &mut String, code: &str, s: &str, use_color: bool)
    ensures
        final(out)@ == old(out)@ + colored_text(code@, s@, use_color),
{
    if use_color {
        push_str(out, code);
        push_str(out, s);
        push_str(out, ANSI_RESET);
    } else {
        push_str(out, s);
    }
}

/// `n` copies of `c`.
pub open spec fn repeat_char(c: char, n: nat) -> Seq<char> {
    Seq::new(n, |i: int| c)
}

fn push_repeat(out: &mut String, c: char, n: usize)
    ensures
        final(out)@ == old(out)@ + repeat_char(c, n as nat),
{
    let ghost start = out@;
    let mut k: usize = 0;
    while k < n
        invariant
            k <= n,
            out@ == start + repeat_char(c, k as nat),
        decreases n - k,
    {
        push_char(out, c);
        assert(out@ =~= start + repeat_char(c, (k + 1) as nat));
        k = k + 1;
    }
}

/// The filled and empty parts of a bar of 30 with `filled` filled.
pub open spec fn bar_text(filled: nat, use_color: bool) -> Seq<char> {
    colored_text(ANSI_GREEN@, repeat_char('━', filled), use_color) + colored_text(
        ANSI_DIM@,
        repeat_char('╌', (30 - filled) as nat),
        use_color,
    )
}

/// `count/total pct%` with the percentage right-aligned to 3.
pub open spec fn counts_text(count: u64, total: u64, pct: nat, use_color: bool) -> Seq<char> {
    dec_seq(count as nat) + seq!['/'] + dec_seq(total as nat) + seq![' '] + colored_text(
        ANSI_YELLOW@,
        pad_left(dec_seq(pct), 3) + seq!['%'],
        use_color,
    )
}

/// The text of one progress frame. With a total: spinner, label padded
/// to 10, a bar of 30 with `count * 30 / total` filled, `count/total`
/// and the percentage; without: spinner, label, `...` and the count.
pub open spec fn frame_text(spinner: Seq<char>, label: Seq<char>, count: u64, total: u64, use_color: bool) -> Seq<char> {
    let head = colored_text(ANSI_CYAN@, spinner, use_color) + seq![' '];
    if total > 0 {
        let pct = (count * 100) / (total as int);
        let share = (count * 30) / (total as int);
        let filled = if share <= 30 { share } else { 30 };
        head + colored_text(ANSI_BOLD@, pad_right(label, 10), use_color) + seq![' '] + bar_text(filled as nat, use_color)
            + seq![' '] + counts_text(count, total, pct as nat, use_color)
    } else {
        head + colored_text(ANSI_BOLD@, label, use_color) + "... "@ + colored_text(
            ANSI_WHITE@,
            dec_seq(count as nat),
            use_color,
        )
    }
}

fn bar_string(filled: u64, use_color: bool) -> (r: String)
    requires
        filled <= 30,
    ensures
        r@ == bar_text(filled as nat, use_color),
{
    let mut fill = String::new();
    push_repeat(&mut fill, '━', filled as usize);
    let mut track = String::new();
    push_repeat(&mut track, '╌', (30 - filled) as usize);
    assert(fill@ =~= repeat_char('━', filled as nat));
    assert(track@ =~= repeat_char('╌', (30 - filled) as nat));
    let mut out = String::new();
    push_colored(&mut out, ANSI_GREEN, fill.as_str(), use_color);
    push_colored(&mut out, ANSI_DIM, track.as_str(), use_color);
    assert(out@ =~= bar_text(filled as nat, use_color));
    out
}

fn counts_string(count: u64, total: u64, pct: u64, use_color: bool) -> (r: String)
    ensures
        r@ == counts_text(count, total, pct as nat, use_color),
{
    let mut out = u64_to_dec(count);
    push_char(&mut out, '/');
    let t = u64_to_dec(total);
    push_str(&mut out, t.as_str());
    push_char(&mut out, ' ');
    let p = u64_to_dec(pct);
    let mut pp = padded_left(p.as_str(), 3);
    push_char(&mut pp, '%');
    let ghost before = out@;
    push_colored(&mut out, ANSI_YELLOW, pp.as_str(), use_color);
    assert(before =~= dec_seq(count as nat) + seq!['/'] + dec_seq(total as nat) + seq![' ']);
    assert(out@ =~= counts_text(count, total, pct as nat, use_color));
    out
}

/// Builds the text of one progress frame (see [`frame_text`]).
pub fn render_frame(spinner: &str, label: &str, count: u64, total: u64, use_color: bool) -> (r: String)
    requires
        count * 100 <= u64::MAX,
    ensures
        r@ == frame_text(spinner@, label@, count, total, use_color),
{
    let mut out = String::new();
    push_colored(&mut out, ANSI_CYAN, spinner, use_color);
    push_char(&mut out, ' ');
    let ghost head = out@;
    assert(head =~= colored_text(ANSI_CYAN@, spinner@, use_color) + seq![' ']);
    if total > 0 {
        let pct = count * 100 / total;
        let share = count * 30 / total;
        let filled: u64 = if share <= 30 { share } else { 30 };
        let pl = padded_right(label, 10);
        push_colored(&mut out, ANSI_BOLD, pl.as_str(), use_color);
        push_char(&mut out, ' ');
        let ghost a = out@;
        let bar = bar_string(filled, use_color);
        push_str(&mut out, bar.as_str());
        push_char(&mut out, ' ');
        let ghost b = out@;
        let counts = counts_string(count, total, pct, use_color);
        push_str(&mut out, counts.as_str());
        assert(a =~= head + colored_text(ANSI_BOLD@, pad_right(label@, 10), use_color) + seq![' ']);
        assert(b =~= a + bar_text(filled as nat, use_color) + seq![' ']);
        assert(out@ =~= b + counts_text(count, total, pct as nat, use_color));
    } else {
        push_colored(&mut out, ANSI_BOLD, label, use_color);
        push_str(&mut out, "... ");
        let c = u64_to_dec(count);
        push_colored(&mut out, ANSI_WHITE, c.as_str(), use_color);
    }
    out
}

/// The summary printed when a phase finishes: a check mark, the
/// past-tense label and the count with thousands separators.
pub open spec fn done_text(past_tense: Seq<char>, count: u64, use_color: bool) -> Seq<char> {
    colored_text(ANSI_GREEN@, "✓"@, use_color) + seq![' '] + colored_text(ANSI_BOLD@, past_tense, use_color) + seq![' ']
        + count_text(count)
}

/// Builds the summary line of a finished phase (see [`done_text`]).
pub fn render_done(past_tense: &str, count: u64, use_color: bool) -> (r: String)
    ensures
        r@ == done_text(past_tense@, count, use_color),
{
    let mut out = String::new();
    push_colored(&mut out, ANSI_GREEN, "✓", use_color);
    push_char(&mut out, ' ');
    push_colored(&mut out, ANSI_BOLD, past_tense, use_color);
    push_char(&mut out, ' ');
    let c = format_count(count);
    push_str(&mut out, c.as_str());
    assert(out@ =~= done_text(past_tense@, count, use_color));
    out
}

} // verus!
