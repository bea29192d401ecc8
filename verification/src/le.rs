//! Little-endian integer encoding and decoding over byte sequences.

use vstd::prelude::*;

verus! {

/// `256^n`.
pub open spec fn pow256(n: nat) -> nat
    decreases n,
{
    if n == 0 { 1 } else { 256 * pow256((n - 1) as nat) }
}

/// `256^n` is positive.
pub proof fn lemma_pow256_pos(n: nat)
    ensures
        pow256(n) > 0,
    decreases n,
{
    if n > 0 {
        lemma_pow256_pos((n - 1) as nat);
    }
}

/// The unsigned integer a little-endian byte sequence encodes.
pub open spec fn le_val(s: Seq<u8>) -> nat
    decreases s.len(),
{
    if s.len() == 0 { 0 } else { s[0] as nat + 256 * le_val(s.drop_first()) }
}

/// The four little-endian bytes of a `u32` (`u32::to_le_bytes`).
pub open spec fn le_bytes_u32(x: u32) -> Seq<u8> {
    seq![
        (x % 256) as u8,
        ((x / 256) % 256) as u8,
        ((x / 65536) % 256) as u8,
        ((x / 16777216) % 256) as u8,
    ]
}

pub proof fn lemma_le_val_bound(s: Seq<u8>)
    ensures
        le_val(s) < pow256(s.len()),
    decreases s.len(),
{
    if s.len() > 0 {
        lemma_le_val_bound(s.drop_first());
        let r = le_val(s.drop_first());
        let p = pow256((s.len() - 1) as nat);
        assert(s[0] as nat + 256 * r < 256 * p) by (nonlinear_arith)
            requires
                r < p,
                s[0] < 256,
        ;
    }
}

/// Decoding the encoding of a `u32` gives the number back.
pub proof fn lemma_le_u32_roundtrip(x: u32)
    ensures
        le_val(le_bytes_u32(x)) == x,
{
    let s = le_bytes_u32(x);
    assert(s.drop_first().drop_first().drop_first().drop_first() =~= Seq::<u8>::empty());
    assert(le_val(s.drop_first().drop_first().drop_first().drop_first()) == 0);
    assert(le_val(s.drop_first().drop_first().drop_first()) == ((x / 16777216) % 256));
    assert(le_val(s.drop_first().drop_first()) == ((x / 65536) % 256) + 256 * ((x / 16777216) % 256));
    assert(le_val(s.drop_first()) == ((x / 256) % 256) + 256 * (((x / 65536) % 256) + 256 * ((x
        / 16777216) % 256)));
    assert(x == (x % 256) + 256 * (((x / 256) % 256) + 256 * (((x / 65536) % 256) + 256 * ((x
        / 16777216) % 256)))) by (nonlinear_arith)
        requires
            x < 4294967296,
    ;
}

/// The little-endian bytes of a `u32`.
pub fn u32_le_bytes(x: u32) -> (r: [u8; 4])
    ensures
        r@ == le_bytes_u32(x),
{
    let r = [(x % 256) as u8, ((x / 256) % 256) as u8, ((x / 65536) % 256) as u8, ((x / 16777216) % 256) as u8];
    assert(r@ =~= le_bytes_u32(x));
    r
}

/// Reads `width` little-endian bytes of `buf` at `off`.
pub fn read_le(buf: &[u8], off: usize, width: usize) -> (r: u64)
    requires
        width <= 8,
        off + width <= buf@.len(),
    ensures
        r as nat == le_val(buf@.subrange(off as int, off + width)),
{
    let n = buf.len();
    let mut acc: u64 = 0;
    let mut i: usize = width;
    proof {
        assert(buf@.subrange(off + width, off + width) =~= Seq::<u8>::empty());
    }
    while i > 0
        invariant
            width <= 8,
            off + width <= buf@.len(),
            n == buf@.len(),
            i <= width,
            acc as nat == le_val(buf@.subrange(off + i, off + width)),
            (acc as nat) < pow256((width - i) as nat),
        decreases i,
    {
        let b = buf[off + (i - 1)];
        proof {
            let tail = buf@.subrange(off + i, off + width);
            let whole = buf@.subrange(off + i - 1, off + width);
            assert(whole.drop_first() =~= tail);
            assert(whole[0] == b);
            let p = pow256((width - i) as nat);
            assert(pow256((width - i + 1) as nat) == 256 * p);
            lemma_pow256_8();
            lemma_pow_mono((width - i + 1) as nat, 8);
            assert(acc * 256 + b < 256 * p) by (nonlinear_arith)
                requires
                    acc < p,
                    b < 256,
            ;
        }
        acc = acc * 256 + b as u64;
        i = i - 1;
    }
    acc
}

/// A four-byte little-endian value is below `2^32`.
pub proof fn lemma_le4_bound(s: Seq<u8>)
    requires
        s.len() == 4,
    ensures
        le_val(s) < 4294967296,
{
    lemma_le_val_bound(s);
    assert(pow256(0) == 1);
    assert(pow256(1) == 256);
    assert(pow256(2) == 65536);
    assert(pow256(3) == 16777216);
    assert(pow256(4) == 4294967296);
}

proof fn lemma_pow256_8()
    ensures
        pow256(8) == 18446744073709551616nat,
{
    assert(pow256(0) == 1);
    assert(pow256(1) == 256);
    assert(pow256(2) == 65536);
    assert(pow256(3) == 16777216);
    assert(pow256(4) == 4294967296);
    assert(pow256(5) == 1099511627776);
    assert(pow256(6) == 281474976710656);
    assert(pow256(7) == 72057594037927936);
}

proof fn lemma_pow_mono(a: nat, b: nat)
    requires
        a <= b,
    ensures
        pow256(a) <= pow256(b),
    decreases b,
{
    if a < b {
        lemma_pow_mono(a, (b - 1) as nat);
    }
}

} // verus!
