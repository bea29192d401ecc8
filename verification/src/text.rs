//! Character-level string helpers with exact specifications.
//!
//! Strings are modelled by their `Seq<char>` views. The helpers here give
//! trimming, ASCII case folding, decimal/hex formatting and unsigned
//! decimal parsing, each stated over those sequences.

use vstd::prelude::*;

verus! {

// ── Character classes ──────────────────────────────────────────────────

/// The Unicode `White_Space` characters, as `char::is_whitespace` lists them.
pub open spec fn is_ws(c: char) -> bool {
    ||| ('\u{9}' <= c && c <= '\u{d}')
    ||| c == ' '
    ||| c == '\u{85}'
    ||| c == '\u{a0}'
    ||| c == '\u{1680}'
    ||| ('\u{2000}' <= c && c <= '\u{200a}')
    ||| c == '\u{2028}'
    ||| c == '\u{2029}'
    ||| c == '\u{202f}'
    ||| c == '\u{205f}'
    ||| c == '\u{3000}'
}

/// `true` for ASCII upper-case letters.
pub open spec fn is_ascii_upper(c: char) -> bool {
    'A' <= c && c <= 'Z'
}

/// `true` for ASCII letters and digits.
pub open spec fn is_ascii_alnum(c: char) -> bool {
    ||| ('a' <= c && c <= 'z')
    ||| ('A' <= c && c <= 'Z')
    ||| ('0' <= c && c <= '9')
}

/// ASCII lower-casing of one character; other characters are unchanged.
pub open spec fn lower_char(c: char) -> char {
    if is_ascii_upper(c) { ((c as u32) + 32) as char } else { c }
}

/// ASCII upper-casing of one character; other characters are unchanged.
pub open spec fn upper_char(c: char) -> char {
    if 'a' <= c && c <= 'z' { ((c as u32) - 32) as char } else { c }
}

/// ASCII lower-casing of a whole sequence.
pub open spec fn ascii_lower(s: Seq<char>) -> Seq<char> {
    s.map_values(|c: char| lower_char(c))
}

/// `true` when every character is ASCII.
pub open spec fn all_ascii(s: Seq<char>) -> bool {
    forall|i: int| 0 <= i < s.len() ==> (s[i] as u32) < 128
}

pub fn is_ws_char(c: char) -> (r: bool)
    ensures
        r == is_ws(c),
{
    ('\u{9}' <= c && c <= '\u{d}') || c == ' ' || c == '\u{85}' || c == '\u{a0}' || c
        == '\u{1680}' || ('\u{2000}' <= c && c <= '\u{200a}') || c == '\u{2028}' || c
        == '\u{2029}' || c == '\u{202f}' || c == '\u{205f}' || c == '\u{3000}'
}

/// ASCII lower-case of one character.
pub fn char_to_lower(c: char) -> (r: char)
    ensures
        r == lower_char(c),
{
    if 'A' <= c && c <= 'Z' {
        let b: u8 = (c as u8) + 32;
        b as char
    } else {
        c
    }
}

/// ASCII upper-case of one character.
pub fn char_to_upper(c: char) -> (r: char)
    ensures
        r == upper_char(c),
{
    if 'a' <= c && c <= 'z' {
        let b: u8 = (c as u8) - 32;
        b as char
    } else {
        c
    }
}

// ── Trimming ───────────────────────────────────────────────────────────

/// First index at or after `i` that holds a non-whitespace character
/// (`s.len()` when there is none).
pub open spec fn lead(s: Seq<char>, i: int) -> int
    decreases s.len() - i,
{
    if i >= s.len() {
        s.len() as int
    } else if is_ws(s[i]) {
        lead(s, i + 1)
    } else {
        i
    }
}

/// End of the last non-whitespace character at or before `j`
/// (0 when there is none).
pub open spec fn trail(s: Seq<char>, j: int) -> int
    decreases j,
{
    if j <= 0 {
        0
    } else if is_ws(s[j - 1]) {
        trail(s, j - 1)
    } else {
        j
    }
}

/// `s` without leading and trailing whitespace (`str::trim`).
pub open spec fn trim_seq(s: Seq<char>) -> Seq<char> {
    let a = lead(s, 0);
    let b = trail(s, s.len() as int);
    if a >= b {
        Seq::empty()
    } else {
        s.subrange(a, b)
    }
}

proof fn lemma_trail_above(s: Seq<char>, j: int, i: int)
    requires
        0 <= i < j <= s.len(),
        !is_ws(s[i]),
    ensures
        trail(s, j) > i,
    decreases j,
{
    if is_ws(s[j - 1]) {
        lemma_trail_above(s, j - 1, i);
    }
}

proof fn lemma_trail_le(s: Seq<char>, j: int)
    requires
        0 <= j <= s.len(),
    ensures
        0 <= trail(s, j) <= j,
    decreases j,
{
    if j > 0 && is_ws(s[j - 1]) {
        lemma_trail_le(s, j - 1);
    }
}

/// `s` with surrounding whitespace removed.
pub fn trim(s: &str) -> (r: &str)
    ensures
        r@ == trim_seq(s@),
{
    let n = s.unicode_len();
    let mut i: usize = 0;
    while i < n && is_ws_char(s.get_char(i))
        invariant
            n == s@.len(),
            i <= n,
            lead(s@, 0) == lead(s@, i as int),
        decreases n - i,
    {
        i = i + 1;
    }
    if i == n {
        proof {
            lemma_trail_le(s@, n as int);
        }
        let e = s.substring_char(0, 0);
        assert(e@ =~= trim_seq(s@));
        return e;
    }
    let mut j: usize = n;
    while j > i && is_ws_char(s.get_char(j - 1))
        invariant
            n == s@.len(),
            i < n,
            !is_ws(s@[i as int]),
            i <= j <= n,
            trail(s@, n as int) == trail(s@, j as int),
        decreases j,
    {
        j = j - 1;
    }
    proof {
        if j == i {
            assert(!is_ws(s@[i as int]));
        }
        lemma_trail_above(s@, n as int, i as int);
        lemma_trail_le(s@, j as int);
        assert(j > i);
        assert(lead(s@, i as int) == i);
        assert(trail(s@, j as int) == j);
    }
    s.substring_char(i, j)
}

/// Text that neither starts nor ends with whitespace is its own trim.
pub proof fn lemma_trim_plain(s: Seq<char>)
    requires
        s.len() > 0,
        !is_ws(s[0]),
        !is_ws(s[s.len() - 1]),
    ensures
        trim_seq(s) == s,
{
    assert(lead(s, 0) == 0);
    assert(trail(s, s.len() as int) == s.len());
    assert(s.subrange(0, s.len() as int) =~= s);
}

/// Text without ASCII upper-case letters is its own ASCII lower-case.
pub proof fn lemma_lower_plain(s: Seq<char>)
    requires
        forall|i: int| 0 <= i < s.len() ==> !is_ascii_upper(#[trigger] s[i]),
    ensures
        ascii_lower(s) == s,
{
    assert(ascii_lower(s) =~= s);
}

/// Lower-casing is idempotent.
pub proof fn lemma_lower_idem(s: Seq<char>)
    ensures
        ascii_lower(ascii_lower(s)) == ascii_lower(s),
{
    assert(ascii_lower(ascii_lower(s)) =~= ascii_lower(s));
}

// ── Case folding and comparison ────────────────────────────────────────

/// `s` with ASCII letters lower-cased (`str::to_ascii_lowercase`).
pub fn to_ascii_lower(s: &str) -> (r: String)
    ensures
        r@ == ascii_lower(s@),
{
    let n = s.unicode_len();
    let mut out = String::new();
    let mut i: usize = 0;
    while i < n
        invariant
            n == s@.len(),
            i <= n,
            out@ == ascii_lower(s@.subrange(0, i as int)),
        decreases n - i,
    {
        let c = char_to_lower(s.get_char(i));
        push_char(&mut out, c);
        proof {
            assert(ascii_lower(s@.subrange(0, i + 1)) =~= ascii_lower(s@.subrange(0, i as int)).push(
                lower_char(s@[i as int]),
            ));
        }
        i = i + 1;
    }
    proof {
        assert(s@.subrange(0, n as int) =~= s@);
    }
    out
}

/// Appends one character to a `String` (`String::push`).
#[verifier::external_body]
pub(crate) fn push_char(s: &mut String, c: char)
    ensures
        final(s)@ == old(s)@.push(c),
{
    s.push(c);
}

/// Appends a string slice to a `String`.
pub fn push_str(s: &mut String, t: &str)
    ensures
        final(s)@ == old(s)@ + t@,
{
    s.append(t);
}

/// What `str::to_lowercase` gives for `s` (Unicode lower-case mapping).
pub uninterp spec fn unicode_lower(s: Seq<char>) -> Seq<char>;

/// The texts of a list of strings.
pub open spec fn texts(v: Seq<String>) -> Seq<Seq<char>> {
    v.map_values(|s: String| s@)
}

/// Lower-cased text as `str::to_lowercase` gives it: on ASCII text,
/// `A`-`Z` lowered and the rest kept; otherwise the Unicode mapping.
pub open spec fn lower_text(s: Seq<char>) -> Seq<char> {
    if all_ascii(s) { ascii_lower(s) } else { unicode_lower(s) }
}

/// `str::to_lowercase`. Claimed: the result is `unicode_lower` of the
/// argument, and on ASCII text it lowers `A`-`Z` and keeps the rest.
#[verifier::external_body]
pub(crate) fn to_lowercase(s: &str) -> (r: String)
    ensures
        r@ == unicode_lower(s@),
        all_ascii(s@) ==> r@ == ascii_lower(s@),
{
    s.to_lowercase()
}

/// A fresh `String` holding `s`.
pub fn owned(s: &str) -> (r: String)
    ensures
        r@ == s@,
{
    String::from_str(s)
}

/// `true` exactly when the two strings hold the same characters.
pub fn str_eq(a: &str, b: &str) -> (r: bool)
    ensures
        r == (a@ == b@),
{
    let x = String::from_str(a);
    let y = String::from_str(b);
    x == y
}

// ── Ordering ───────────────────────────────────────────────────────────

/// Lexicographic order by character (the order of `str` comparison: UTF-8
/// byte order is code point order).
pub open spec fn text_le(a: Seq<char>, b: Seq<char>) -> bool
    decreases a.len(),
{
    if a.len() == 0 {
        true
    } else if b.len() == 0 {
        false
    } else if a[0] != b[0] {
        a[0] < b[0]
    } else {
        text_le(a.drop_first(), b.drop_first())
    }
}

/// `a <= b` in lexicographic order.
pub fn str_le(a: &str, b: &str) -> (r: bool)
    ensures
        r == text_le(a@, b@),
{
    let n = a.unicode_len();
    let m = b.unicode_len();
    let mut i: usize = 0;
    assert(a@.subrange(0, n as int) =~= a@ && b@.subrange(0, m as int) =~= b@);
    while i < n && i < m && a.get_char(i) == b.get_char(i)
        invariant
            n == a@.len(),
            m == b@.len(),
            i <= n,
            i <= m,
            text_le(a@, b@) == text_le(a@.subrange(i as int, n as int), b@.subrange(i as int, m as int)),
        decreases n - i,
    {
        proof {
            let sa = a@.subrange(i as int, n as int);
            let sb = b@.subrange(i as int, m as int);
            assert(sa.drop_first() =~= a@.subrange(i + 1, n as int));
            assert(sb.drop_first() =~= b@.subrange(i + 1, m as int));
            assert(sa[0] == a@[i as int] && sb[0] == b@[i as int]);
        }
        i = i + 1;
    }
    proof {
        let sa = a@.subrange(i as int, n as int);
        let sb = b@.subrange(i as int, m as int);
        if i < n && i < m {
            assert(sa[0] == a@[i as int] && sb[0] == b@[i as int]);
        }
    }
    if i == n {
        true
    } else if i == m {
        false
    } else {
        a.get_char(i) < b.get_char(i)
    }
}

// ── Decimal and hexadecimal formatting ─────────────────────────────────

/// The character for a decimal digit `d < 10`.
pub open spec fn digit_char(d: nat) -> char {
    (('0' as u32) + d) as char
}

/// The character for a lower-case hexadecimal digit `d < 16`.
pub open spec fn hex_char(d: nat) -> char {
    if d < 10 { digit_char(d) } else { (('a' as u32) + (d - 10)) as char }
}

/// Decimal representation of `n` without leading zeros (`n.to_string()`).
pub open spec fn dec_seq(n: nat) -> Seq<char>
    decreases n,
{
    if n < 10 {
        seq![digit_char(n)]
    } else {
        dec_seq(n / 10).push(digit_char(n % 10))
    }
}

/// Lower-case hexadecimal representation of `n`, left-padded with zeros
/// to exactly `width` digits (higher digits beyond `width` are dropped).
pub open spec fn hex_pad_seq(n: nat, width: nat) -> Seq<char>
    decreases width,
{
    if width == 0 {
        Seq::empty()
    } else {
        hex_pad_seq(n / 16, (width - 1) as nat).push(hex_char(n % 16))
    }
}

/// Decimal text of `n`.
pub fn u64_to_dec(n: u64) -> (r: String)
    ensures
        r@ == dec_seq(n as nat),
    decreases n,
{
    if n < 10 {
        let mut s = String::new();
        let d: u8 = n as u8;
        push_char(&mut s, ('0' as u8 + d) as char);
        s
    } else {
        let mut s = u64_to_dec(n / 10);
        let d: u8 = (n % 10) as u8;
        push_char(&mut s, ('0' as u8 + d) as char);
        s
    }
}

/// Decimal text of a `u128`.
pub fn u128_to_dec(n: u128) -> (r: String)
    ensures
        r@ == dec_seq(n as nat),
    decreases n,
{
    if n < 10 {
        let mut s = String::new();
        let d: u8 = n as u8;
        push_char(&mut s, ('0' as u8 + d) as char);
        s
    } else {
        let mut s = u128_to_dec(n / 10);
        let d: u8 = (n % 10) as u8;
        push_char(&mut s, ('0' as u8 + d) as char);
        s
    }
}

/// Decimal representation of a signed integer (`i64::to_string`).
pub open spec fn int_dec_seq(n: int) -> Seq<char> {
    if n < 0 { seq!['-'] + dec_seq((-n) as nat) } else { dec_seq(n as nat) }
}

/// Decimal text of a signed `n`.
pub fn i64_to_dec(n: i64) -> (r: String)
    ensures
        r@ == int_dec_seq(n as int),
{
    if n < 0 {
        let m: u64 = (0i128 - (n as i128)) as u64;
        let d = u64_to_dec(m);
        let mut s = String::new();
        push_char(&mut s, '-');
        push_str(&mut s, d.as_str());
        s
    } else {
        u64_to_dec(n as u64)
    }
}

/// Lower-case hexadecimal text of `n`, zero-padded to `width` digits.
pub fn u128_to_hex_pad(n: u128, width: usize) -> (r: String)
    ensures
        r@ == hex_pad_seq(n as nat, width as nat),
    decreases width,
{
    if width == 0 {
        String::new()
    } else {
        let mut s = u128_to_hex_pad(n / 16, width - 1);
        let d: u8 = (n % 16) as u8;
        let c: char = if d < 10 { ('0' as u8 + d) as char } else { ('a' as u8 + (d - 10)) as char };
        push_char(&mut s, c);
        s
    }
}

// ── Unsigned decimal parsing ───────────────────────────────────────────

/// `true` for ASCII decimal digits.
pub open spec fn is_digit(c: char) -> bool {
    '0' <= c && c <= '9'
}

/// Value of a digit character.
pub open spec fn digit_val(c: char) -> nat {
    ((c as u32) - ('0' as u32)) as nat
}

/// Value of a string of decimal digits (0 for the empty string).
pub open spec fn digits_value(s: Seq<char>) -> nat
    decreases s.len(),
{
    if s.len() == 0 {
        0
    } else {
        digits_value(s.drop_last()) * 10 + digit_val(s.last())
    }
}

/// The digits part of an unsigned integer literal: one leading `+` is
/// dropped.
pub open spec fn unsigned_body(s: Seq<char>) -> Seq<char> {
    if s.len() > 0 && s[0] == '+' { s.drop_first() } else { s }
}

/// What `str::parse` gives for an unsigned integer type whose maximum is
/// `max`: an optional `+`, then at least one ASCII digit and nothing else,
/// with a value of at most `max`.
pub open spec fn parse_unsigned(s: Seq<char>, max: nat) -> Option<nat> {
    let body = unsigned_body(s);
    if body.len() == 0 {
        None
    } else if exists|i: int| 0 <= i < body.len() && !is_digit(body[i]) {
        None
    } else if digits_value(body) > max {
        None
    } else {
        Some(digits_value(body))
    }
}

/// The decimal text of `n` is digits only and reads back as `n`.
pub proof fn lemma_dec_digits(n: nat)
    ensures
        dec_seq(n).len() > 0,
        forall|i: int| 0 <= i < dec_seq(n).len() ==> is_digit(#[trigger] dec_seq(n)[i]),
        digits_value(dec_seq(n)) == n,
    decreases n,
{
    if n < 10 {
        assert(digits_value(dec_seq(n)) == digits_value(dec_seq(n).drop_last()) * 10 + digit_val(dec_seq(n).last()));
        assert(dec_seq(n).drop_last() =~= Seq::<char>::empty());
    } else {
        lemma_dec_digits(n / 10);
        let s = dec_seq(n / 10).push(digit_char(n % 10));
        assert(s.drop_last() =~= dec_seq(n / 10));
        assert forall|i: int| 0 <= i < s.len() implies is_digit(#[trigger] s[i]) by {
            if i < s.len() - 1 {
                assert(s[i] == dec_seq(n / 10)[i]);
            }
        }
    }
}

/// Parsing the decimal text of `n` gives `n` back, up to `max`.
pub proof fn lemma_parse_dec(n: nat, max: nat)
    requires
        n <= max,
    ensures
        parse_unsigned(dec_seq(n), max) == Some(n),
{
    lemma_dec_digits(n);
    assert(dec_seq(n)[0] != '+') by {
        assert(is_digit(dec_seq(n)[0]));
    }
    assert(unsigned_body(dec_seq(n)) == dec_seq(n));
}

proof fn lemma_digits_prefix_le(s: Seq<char>, i: int)
    requires
        0 <= i <= s.len(),
    ensures
        digits_value(s.subrange(0, i)) <= digits_value(s),
    decreases s.len() - i,
{
    if i < s.len() {
        lemma_digits_prefix_le(s, i + 1);
        assert(s.subrange(0, i + 1).drop_last() =~= s.subrange(0, i));
    } else {
        assert(s.subrange(0, i) =~= s);
    }
}

/// Parses an unsigned decimal integer no larger than `max`, with the
/// rules of `str::parse` for unsigned integer types.
pub fn parse_u64_max(s: &str, max: u64) -> (r: Option<u64>)
    ensures
        match parse_unsigned(s@, max as nat) {
            Some(v) => r == Some(v as u64),
            None => r is None,
        },
{
    let n = s.unicode_len();
    let mut start: usize = 0;
    if n > 0 && s.get_char(0) == '+' {
        start = 1;
    }
    let ghost body = unsigned_body(s@);
    assert(body =~= s@.subrange(start as int, n as int));
    if start == n {
        return None;
    }
    let mut acc: u64 = 0;
    let mut i: usize = start;
    assert(body.subrange(0, 0) =~= Seq::<char>::empty());
    while i < n
        invariant
            n == s@.len(),
            start <= i <= n,
            start < n,
            body =~= s@.subrange(start as int, n as int),
            body == unsigned_body(s@),
            forall|k: int| 0 <= k < i - start ==> is_digit(body[k]),
            acc as nat == digits_value(body.subrange(0, i - start)),
            acc <= max,
        decreases n - i,
    {
        let c = s.get_char(i);
        assert(body[i - start] == c);
        if !('0' <= c && c <= '9') {
            assert(0 <= i - start < body.len() && !is_digit(body[i - start]));
            return None;
        }
        let d: u64 = ((c as u32) - ('0' as u32)) as u64;
        proof {
            assert(body.subrange(0, i + 1 - start).drop_last() =~= body.subrange(0, i - start));
            assert(body.subrange(0, i + 1 - start).last() == c);
            assert(digit_val(c) == d);
            assert(digits_value(body.subrange(0, i + 1 - start)) == acc * 10 + d);
        }
        if d > max || acc > (max - d) / 10 {
            proof {
                if d <= max {
                    assert(acc * 10 + d > max) by (nonlinear_arith)
                        requires
                            acc > (max - d) / 10,
                            d <= max,
                    ;
                }
                if forall|k: int| 0 <= k < body.len() ==> is_digit(body[k]) {
                    lemma_digits_prefix_le(body, i + 1 - start);
                }
            }
            return None;
        }
        proof {
            assert(acc * 10 + d <= max) by (nonlinear_arith)
                requires
                    acc <= (max - d) / 10,
                    d <= max,
            ;
        }
        acc = acc * 10 + d;
        i = i + 1;
    }
    assert(body.subrange(0, n - start) =~= body);
    Some(acc)
}


// ── Substrings ─────────────────────────────────────────────────────────

/// `needle` occurs in `hay` at position `i`.
pub open spec fn occurs_at(hay: Seq<char>, needle: Seq<char>, i: int) -> bool {
    0 <= i && i + needle.len() <= hay.len() && hay.subrange(i, i + needle.len()) == needle
}

/// `needle` occurs somewhere in `hay` (`str::contains`).
pub open spec fn contains_seq(hay: Seq<char>, needle: Seq<char>) -> bool {
    exists|i: int| #[trigger] occurs_at(hay, needle, i)
}

/// Whether `needle` occurs in `hay`.
pub fn contains_text(hay: &str, needle: &str) -> (r: bool)
    ensures
        r == contains_seq(hay@, needle@),
{
    let n = hay.unicode_len();
    let m = needle.unicode_len();
    if m > n {
        proof {
            assert forall|i: int| !#[trigger] occurs_at(hay@, needle@, i) by {}
        }
        return false;
    }
    let mut i: usize = 0;
    while i <= n - m
        invariant
            n == hay@.len(),
            m == needle@.len(),
            m <= n,
            i <= n - m + 1,
            forall|k: int| 0 <= k < i ==> !#[trigger] occurs_at(hay@, needle@, k),
        decreases n - m + 1 - i,
    {
        let mut j: usize = 0;
        while j < m && hay.get_char(i + j) == needle.get_char(j)
            invariant
                n == hay@.len(),
                m == needle@.len(),
                i + m <= n,
                j <= m,
                forall|q: int| 0 <= q < j ==> hay@[i + q] == needle@[q],
            decreases m - j,
        {
            j = j + 1;
        }
        if j == m {
            proof {
                assert(hay@.subrange(i as int, i + m) =~= needle@);
                assert(occurs_at(hay@, needle@, i as int));
            }
            return true;
        }
        proof {
            assert(hay@.subrange(i as int, i + m)[j as int] != needle@[j as int]);
        }
        i = i + 1;
    }
    proof {
        assert forall|k: int| !#[trigger] occurs_at(hay@, needle@, k) by {
            if 0 <= k && k + m <= n {
                assert(k < i);
            }
        }
    }
    false
}

} // verus!
