//! Formatting of byte sizes (`1.5 GB`, `+3MB`) and of timestamps (UTC,
//! `YYYY-MM-DD HH:MM:SS`).

use vstd::prelude::*;
use chrono::{Datelike, Timelike};
use crate::text::{dec_seq, push_char, push_str, u128_to_dec, u64_to_dec};

verus! {

// ── Byte sizes ─────────────────────────────────────────────────────────
//
// Sizes are scaled by powers of 1024 and printed as a double would be: the
// byte count is first rounded to the nearest double (53 significant bits,
// ties to even), the quotient by a power of two is then exact, and the
// printed digits are that quotient rounded to the shown precision, ties
// to even.

pub open spec fn kib() -> nat { 1024 }
pub open spec fn mib() -> nat { 1024 * 1024 }
pub open spec fn gib() -> nat { 1024 * 1024 * 1024 }
pub open spec fn tib() -> nat { 1024 * 1024 * 1024 * 1024 }

/// The spacing of doubles around `m`: 1 below 2^53, doubling with each
/// further bit.
pub open spec fn ulp_of(m: nat) -> nat
    decreases m,
{
    if m < 0x20_0000_0000_0000 { 1 } else { 2 * ulp_of(m / 2) }
}

/// `x / d` rounded to the nearest integer, ties to the even one.
pub open spec fn div_round_even(x: nat, d: nat) -> nat {
    let q = x / d;
    let r = x % d;
    if 2 * r > d || (2 * r == d && q % 2 == 1) { q + 1 } else { q }
}

/// The double nearest to the integer `m`.
pub open spec fn as_double(m: nat) -> nat {
    div_round_even(m, ulp_of(m)) * ulp_of(m)
}

/// `|x|`.
pub open spec fn magnitude(x: int) -> nat {
    if x < 0 { (-x) as nat } else { x as nat }
}

/// `n` tenths with one decimal: `12` is `1.2`.
pub open spec fn tenths_text(n: nat) -> Seq<char> {
    dec_seq(n / 10) + "."@ + dec_seq(n % 10)
}

/// `format_size`: one decimal and a space before the unit from a KiB up,
/// whole bytes below (negative sizes are always shown in bytes).
pub open spec fn size_text(bytes: int) -> Seq<char> {
    let b = as_double(magnitude(bytes));
    if bytes >= 0 && b >= tib() {
        tenths_text(div_round_even(b * 10, tib())) + " TB"@
    } else if bytes >= 0 && b >= gib() {
        tenths_text(div_round_even(b * 10, gib())) + " GB"@
    } else if bytes >= 0 && b >= mib() {
        tenths_text(div_round_even(b * 10, mib())) + " MB"@
    } else if bytes >= 0 && b >= kib() {
        tenths_text(div_round_even(b * 10, kib())) + " KB"@
    } else if bytes < 0 {
        "-"@ + dec_seq(b) + " B"@
    } else {
        dec_seq(b) + " B"@
    }
}

/// `format_size_compact`: a sign, no decimals and no space (`+3MB`).
pub open spec fn compact_size_text(bytes: int) -> Seq<char> {
    let b = as_double(magnitude(bytes));
    let sign = if bytes < 0 { "-"@ } else { "+"@ };
    if b >= gib() {
        sign + dec_seq(div_round_even(b, gib())) + "GB"@
    } else if b >= mib() {
        sign + dec_seq(div_round_even(b, mib())) + "MB"@
    } else if b >= kib() {
        sign + dec_seq(div_round_even(b, kib())) + "KB"@
    } else {
        sign + dec_seq(b) + "B"@
    }
}

fn round_div(x: u128, d: u128) -> (r: u128)
    requires
        0 < d <= 0x1_0000_0000_0000_0000,
        x < 0x1_0000_0000_0000_0000_0000_0000_0000,
    ensures
        r == div_round_even(x as nat, d as nat),
{
    let q = x / d;
    let r = x % d;
    if 2 * r > d || (2 * r == d && q % 2 == 1) { q + 1 } else { q }
}

/// The double nearest to `m`, as an integer.
fn nearest_double(m: u64) -> (r: u128)
    ensures
        r == as_double(m as nat),
        r <= 0x1_0000_0000_0000_1000,
{
    let mut s: u64 = 1;
    let mut t: u64 = m;
    while t >= 0x20_0000_0000_0000
        invariant
            ulp_of(m as nat) == s * ulp_of(t as nat),
            1 <= s < 0x1000,
            s * t <= m,
            t as nat == m as nat / s as nat,
        decreases t,
    {
        assert(s < 0x800) by (nonlinear_arith)
            requires
                s * t <= m,
                t >= 0x20_0000_0000_0000,
                m <= 0xffff_ffff_ffff_ffff,
        ;
        let ghost u = ulp_of((t / 2) as nat);
        assert(s * ulp_of(t as nat) == (2 * s) * u) by (nonlinear_arith)
            requires
                ulp_of(t as nat) == 2 * u,
        ;
        assert((2 * s) * (t / 2) <= s * t) by (nonlinear_arith);
        assert(m as nat / (2 * s) as nat == (m as nat / s as nat) / 2) by {
            vstd::arithmetic::div_mod::lemma_div_denominator(m as int, s as int, 2);
        }
        t = t / 2;
        s = s * 2;
    }
    assert(ulp_of(t as nat) == 1);
    assert(ulp_of(m as nat) == s) by (nonlinear_arith)
        requires
            ulp_of(m as nat) == s * ulp_of(t as nat),
            ulp_of(t as nat) == 1,
    ;
    let q = round_div(m as u128, s as u128);
    assert(q <= m as nat / s as nat + 1);
    assert((m as nat / s as nat) * s <= m) by (nonlinear_arith)
        requires
            s > 0,
    {
        vstd::arithmetic::div_mod::lemma_fundamental_div_mod(m as int, s as int);
    }
    assert(q * s <= m as nat + s) by (nonlinear_arith)
        requires
            q <= m as nat / s as nat + 1,
            (m as nat / s as nat) * s <= m,
    ;
    assert(q * s <= 0x1_0000_0000_0000_1000) by (nonlinear_arith)
        requires
            q * s <= m as nat + s,
            s < 0x1000,
            m <= 0xffff_ffff_ffff_ffff,
    ;
    q * (s as u128)
}

/// A byte count for people: `512 B`, `1.5 KB`, `3.2 GB`.
pub fn format_size(bytes: i64) -> (r: String)
    ensures
        r@ == size_text(bytes as int),
{
    let neg = bytes < 0;
    let mag: u64 = if neg { (0i128 - bytes as i128) as u64 } else { bytes as u64 };
    let b = nearest_double(mag);
    let (unit, name): (u128, &str) = if !neg && b >= 0x100_0000_0000 {
        (0x100_0000_0000, " TB")
    } else if !neg && b >= 0x4000_0000 {
        (0x4000_0000, " GB")
    } else if !neg && b >= 0x10_0000 {
        (0x10_0000, " MB")
    } else if !neg && b >= 0x400 {
        (0x400, " KB")
    } else {
        (1, " B")
    };
    if unit == 1 {
        let mut s = String::new();
        if neg {
            push_char(&mut s, '-');
        }
        let d = u128_to_dec(b);
        push_str(&mut s, d.as_str());
        push_str(&mut s, " B");
        proof {
            reveal_strlit(" B");
            reveal_strlit("-");
        }
        return s;
    }
    let n = round_div(b * 10, unit);
    let mut s = u128_to_dec(n / 10);
    push_char(&mut s, '.');
    let f = u128_to_dec(n % 10);
    push_str(&mut s, f.as_str());
    push_str(&mut s, name);
    proof {
        reveal_strlit(".");
        reveal_strlit(" TB");
        reveal_strlit(" GB");
        reveal_strlit(" MB");
        reveal_strlit(" KB");
    }
    s
}

/// A signed size change without decimals: `+512B`, `-3MB`.
pub fn format_size_compact(bytes: i64) -> (r: String)
    ensures
        r@ == compact_size_text(bytes as int),
{
    let mag: u64 = if bytes < 0 { (0i128 - bytes as i128) as u64 } else { bytes as u64 };
    let b = nearest_double(mag);
    let mut s = String::new();
    if bytes < 0 {
        push_char(&mut s, '-');
    } else {
        push_char(&mut s, '+');
    }
    let (v, name): (u128, &str) = if b >= 0x4000_0000 {
        (round_div(b, 0x4000_0000), "GB")
    } else if b >= 0x10_0000 {
        (round_div(b, 0x10_0000), "MB")
    } else if b >= 0x400 {
        (round_div(b, 0x400), "KB")
    } else {
        (b, "B")
    };
    let d = u128_to_dec(v);
    push_str(&mut s, d.as_str());
    push_str(&mut s, name);
    proof {
        reveal_strlit("-");
        reveal_strlit("+");
        reveal_strlit("GB");
        reveal_strlit("MB");
        reveal_strlit("KB");
        reveal_strlit("B");
    }
    s
}

/// What `chrono::DateTime::<Utc>::from_timestamp(secs, 0)` gives, as
/// (year, month, day, hour, minute, second), or `None` out of its range.
pub uninterp spec fn utc_fields(secs: i64) -> Option<(i32, u32, u32, u32, u32, u32)>;

/// The proleptic Gregorian date `days` days after 1970-01-01, as
/// (year, month, day): days are counted in 400-year eras of 146097 days
/// from 0000-03-01, and the year is read from March on.
pub open spec fn civil_from_days(days: int) -> (int, int, int) {
    let z = days + 719468;
    let era = z / 146097;
    let doe = z - era * 146097;
    let yoe = (doe - doe / 1460 + doe / 36524 - doe / 146096) / 365;
    let doy = doe - (365 * yoe + yoe / 4 - yoe / 100);
    let mp = (5 * doy + 2) / 153;
    let d = doy - (153 * mp + 2) / 5 + 1;
    let m = if mp < 10 { mp + 3 } else { mp - 9 };
    let y = yoe + era * 400 + (if m <= 2 { 1int } else { 0int });
    (y, m, d)
}

/// The UTC date and time `secs` seconds after the Unix epoch (no leap
/// seconds), as (year, month, day, hour, minute, second).
pub open spec fn utc_civil(secs: int) -> (i32, u32, u32, u32, u32, u32) {
    let days = secs / 86400;
    let sod = secs % 86400;
    let ymd = civil_from_days(days);
    (ymd.0 as i32, ymd.1 as u32, ymd.2 as u32, (sod / 3600) as u32, ((sod % 3600) / 60) as u32, (sod % 60) as u32)
}

/// Within about 31,000 years of 1970, far inside chrono's range.
pub open spec fn civil_range(secs: int) -> bool {
    -1_000_000_000_000 <= secs <= 1_000_000_000_000
}

/// `chrono::DateTime::<Utc>::from_timestamp(secs, 0)`, read out with the
/// `Datelike` and `Timelike` getters. Claimed: the result is `utc_fields`
/// of `secs`; within [`civil_range`] it is the proleptic Gregorian date
/// and time of [`utc_civil`] (chrono splits `secs` with `div_euclid` and
/// `rem_euclid` by 86400 and counts days in that calendar); and a date's
/// fields lie in their documented ranges (month 1-12, day 1-31, hour
/// 0-23, minute and second 0-59).
#[verifier::external_body]
fn utc_from_timestamp(secs: i64) -> (r: Option<(i32, u32, u32, u32, u32, u32)>)
    ensures
        r == utc_fields(secs),
        civil_range(secs as int) ==> r == Some(utc_civil(secs as int)),
        r matches Some(f) ==> 1 <= f.1 <= 12 && 1 <= f.2 <= 31 && f.3 < 24 && f.4 < 60 && f.5 < 60,
{
    chrono::DateTime::<chrono::Utc>::from_timestamp(secs, 0).map(
        |d| (d.year(), d.month(), d.day(), d.hour(), d.minute(), d.second()),
    )
}

/// `n` zero-padded to at least `w` digits.
pub open spec fn zero_pad(n: nat, w: nat) -> Seq<char> {
    let d = dec_seq(n);
    if d.len() >= w {
        d
    } else {
        Seq::new((w - d.len()) as nat, |i: int| '0') + d
    }
}

/// chrono's `%Y`: years 0-9999 as four digits, others with a sign and at
/// least four digits.
pub open spec fn year_text(y: int) -> Seq<char> {
    if 0 <= y <= 9999 {
        zero_pad(y as nat, 4)
    } else if y < 0 {
        seq!['-'] + zero_pad((-y) as nat, 4)
    } else {
        seq!['+'] + zero_pad(y as nat, 4)
    }
}

/// `%Y-%m-%d %H:%M:%S` of the fields.
pub open spec fn datetime_text(f: (i32, u32, u32, u32, u32, u32)) -> Seq<char> {
    year_text(f.0 as int) + seq!['-'] + zero_pad(f.1 as nat, 2) + seq!['-'] + zero_pad(f.2 as nat, 2) + seq![' ']
        + zero_pad(f.3 as nat, 2) + seq![':'] + zero_pad(f.4 as nat, 2) + seq![':'] + zero_pad(f.5 as nat, 2)
}

/// `ms / 1000`, rounding toward zero as Rust's `/` does.
pub open spec fn ms_to_secs(ms: i64) -> int {
    if ms >= 0 { ms / 1000 } else { -((-ms) / 1000) }
}

fn push_zero_padded(out: &mut String, n: u64, w: usize)
    ensures
        final(out)@ == old(out)@ + zero_pad(n as nat, w as nat),
{
    let d = u64_to_dec(n);
    let len = d.as_str().unicode_len();
    let mut k: usize = len;
    let ghost start = out@;
    while k < w
        invariant
            len == dec_seq(n as nat).len(),
            len <= k <= w || (len > w && k == len),
            out@ == start + Seq::new((k - len) as nat, |i: int| '0'),
        decreases w - k,
    {
        push_char(out, '0');
        assert(out@ =~= start + Seq::new((k + 1 - len) as nat, |i: int| '0'));
        k = k + 1;
    }
    push_str(out, d.as_str());
    if len >= w {
        assert(out@ =~= start + dec_seq(n as nat));
    } else {
        assert(out@ =~= start + (Seq::new((w - len) as nat, |i: int| '0') + dec_seq(n as nat)));
    }
}

/// A millisecond timestamp as UTC `YYYY-MM-DD HH:MM:SS`; out-of-range
/// timestamps read as the Unix epoch.
pub fn format_timestamp(ms: i64) -> (r: String)
    ensures
        civil_range(ms_to_secs(ms)) ==> r@ == datetime_text(utc_civil(ms_to_secs(ms))),
        r@ == datetime_text(
            match utc_fields(ms_to_secs(ms) as i64) {
                Some(f) => f,
                None => (1970i32, 1u32, 1u32, 0u32, 0u32, 0u32),
            },
        ),
{
    let secs: i64 = if ms >= 0 { ms / 1000 } else { -((-(ms as i128)) / 1000) as i64 };
    let f = match utc_from_timestamp(secs) {
        Some(f) => f,
        None => (1970i32, 1u32, 1u32, 0u32, 0u32, 0u32),
    };
    let mut out = String::new();
    let y = f.0;
    if 0 <= y && y <= 9999 {
        push_zero_padded(&mut out, y as u64, 4);
    } else if y < 0 {
        push_char(&mut out, '-');
        push_zero_padded(&mut out, (-(y as i64)) as u64, 4);
    } else {
        push_char(&mut out, '+');
        push_zero_padded(&mut out, y as u64, 4);
    }
    push_char(&mut out, '-');
    push_zero_padded(&mut out, f.1 as u64, 2);
    push_char(&mut out, '-');
    push_zero_padded(&mut out, f.2 as u64, 2);
    push_char(&mut out, ' ');
    push_zero_padded(&mut out, f.3 as u64, 2);
    push_char(&mut out, ':');
    push_zero_padded(&mut out, f.4 as u64, 2);
    push_char(&mut out, ':');
    push_zero_padded(&mut out, f.5 as u64, 2);
    assert(out@ =~= datetime_text(f));
    out
}

} // verus!
