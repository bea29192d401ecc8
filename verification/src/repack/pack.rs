//! How a `.gim` archive lays out its objects: each distinct content once,
//! in the order first met, one after another in a single stream, with a
//! table giving each one's offset and size.

use vstd::prelude::*;
use vstd::hash_map::StringHashMap;
use crate::repack::manifest::GimObject;
use crate::text::texts;

verus! {

/// The first `n` hashes with every repeat dropped (first occurrences kept,
/// in order).
pub open spec fn first_occurrences(hs: Seq<Seq<char>>, n: int) -> Seq<Seq<char>>
    decreases n,
{
    if n <= 0 {
        Seq::empty()
    } else {
        let p = first_occurrences(hs, n - 1);
        if p.contains(hs[n - 1]) { p } else { p.push(hs[n - 1]) }
    }
}

/// The distinct hashes among `hashes`, in the order first met.
pub fn unique_hashes(hashes: &[String]) -> (r: Vec<String>)
    ensures
        texts(r@) == first_occurrences(texts(hashes@), hashes@.len() as int),
{
    let ghost hs = texts(hashes@);
    let mut seen: StringHashMap<bool> = StringHashMap::new();
    let mut out: Vec<String> = Vec::new();
    let mut i: usize = 0;
    while i < hashes.len()
        invariant
            i <= hashes@.len(),
            hs == texts(hashes@),
            texts(out@) == first_occurrences(hs, i as int),
            forall|k: Seq<char>| #[trigger] seen@.contains_key(k) <==> texts(out@).contains(k),
        decreases hashes@.len() - i,
    {
        let ghost before = texts(out@);
        if !seen.contains_key(hashes[i].as_str()) {
            seen.insert(hashes[i].clone(), true);
            out.push(hashes[i].clone());
            proof {
                assert(texts(out@) =~= before.push(hs[i as int]));
                assert forall|k: Seq<char>| #[trigger] seen@.contains_key(k) <==> texts(out@).contains(k) by {
                    if before.contains(k) {
                        let j = choose|j: int| 0 <= j < before.len() && before[j] == k;
                        assert(texts(out@)[j] == k);
                    }
                    if k == hs[i as int] {
                        assert(texts(out@)[before.len() as int] == k);
                    }
                    if texts(out@).contains(k) && k != hs[i as int] {
                        let j = choose|j: int| 0 <= j < texts(out@).len() && texts(out@)[j] == k;
                        assert(before[j] == k);
                    }
                }
            }
        }
        i = i + 1;
    }
    proof {
        assert(hs.len() == hashes@.len());
    }
    out
}

/// Where object `i` starts: the sizes of the objects before it, added.
pub open spec fn offset_of(sizes: Seq<u64>, i: int) -> nat
    decreases i,
{
    if i <= 0 {
        0
    } else {
        offset_of(sizes, i - 1) + (sizes[i - 1] as nat)
    }
}

proof fn lemma_offset_grows(sizes: Seq<u64>, i: int, j: int)
    requires
        i <= j,
    ensures
        offset_of(sizes, i) <= offset_of(sizes, j),
    decreases j - i,
{
    if i < j {
        lemma_offset_grows(sizes, i, j - 1);
    }
}

/// The object table of a stream holding the objects `hashes`, of sizes
/// `sizes`, one after another (stored sizes equal the original sizes).
pub fn object_table(hashes: &[String], sizes: &[u64]) -> (r: Vec<GimObject>)
    requires
        hashes@.len() == sizes@.len(),
        offset_of(sizes@, sizes@.len() as int) <= u64::MAX,
    ensures
        r@.len() == hashes@.len(),
        forall|i: int|
            0 <= i < r@.len() ==> {
                &&& (#[trigger] r@[i]).hash@ == hashes@[i]@
                &&& r@[i].offset == offset_of(sizes@, i)
                &&& r@[i].orig_size == sizes@[i]
                &&& r@[i].compressed_size == sizes@[i]
            },
{
    let mut out: Vec<GimObject> = Vec::new();
    let mut offset: u64 = 0;
    let mut i: usize = 0;
    while i < hashes.len()
        invariant
            i <= hashes@.len(),
            hashes@.len() == sizes@.len(),
            offset_of(sizes@, sizes@.len() as int) <= u64::MAX,
            offset == offset_of(sizes@, i as int),
            out@.len() == i,
            forall|j: int|
                0 <= j < i ==> {
                    &&& (#[trigger] out@[j]).hash@ == hashes@[j]@
                    &&& out@[j].offset == offset_of(sizes@, j)
                    &&& out@[j].orig_size == sizes@[j]
                    &&& out@[j].compressed_size == sizes@[j]
                },
        decreases hashes@.len() - i,
    {
        let n = sizes[i];
        out.push(GimObject { hash: hashes[i].clone(), offset, compressed_size: n, orig_size: n });
        proof {
            lemma_offset_grows(sizes@, i + 1, sizes@.len() as int);
        }
        offset = offset + n;
        i = i + 1;
    }
    out
}

/// The objects one after another.
pub open spec fn concat_all(bs: Seq<Seq<u8>>, n: int) -> Seq<u8>
    decreases n,
{
    if n <= 0 {
        Seq::empty()
    } else {
        concat_all(bs, n - 1) + bs[n - 1]
    }
}

proof fn lemma_concat_len(bs: Seq<Seq<u8>>, sizes: Seq<u64>, n: int)
    requires
        0 <= n <= bs.len(),
        sizes.len() == bs.len(),
        forall|j: int| 0 <= j < bs.len() ==> #[trigger] sizes[j] == bs[j].len(),
    ensures
        concat_all(bs, n).len() == offset_of(sizes, n),
    decreases n,
{
    if n > 0 {
        lemma_concat_len(bs, sizes, n - 1);
    }
}

proof fn lemma_concat_prefix(bs: Seq<Seq<u8>>, m: int, n: int)
    requires
        0 <= m <= n <= bs.len(),
    ensures
        concat_all(bs, m).len() <= concat_all(bs, n).len(),
        concat_all(bs, n).subrange(0, concat_all(bs, m).len() as int) == concat_all(bs, m),
    decreases n - m,
{
    if m < n {
        lemma_concat_prefix(bs, m, n - 1);
        let a = concat_all(bs, n - 1);
        let l = concat_all(bs, m).len() as int;
        assert((a + bs[n - 1]).subrange(0, l) =~= a.subrange(0, l));
    } else {
        assert(concat_all(bs, n).subrange(0, concat_all(bs, n).len() as int) =~= concat_all(bs, n));
    }
}

/// Reading an object back from the packed stream: the bytes the object
/// table gives for object `i` (from its offset, its size long) are exactly
/// that object.
pub proof fn lemma_objects_located(bs: Seq<Seq<u8>>, sizes: Seq<u64>, i: int)
    requires
        0 <= i < bs.len(),
        sizes.len() == bs.len(),
        forall|j: int| 0 <= j < bs.len() ==> #[trigger] sizes[j] == bs[j].len(),
    ensures
        offset_of(sizes, i) + sizes[i] <= concat_all(bs, bs.len() as int).len(),
        concat_all(bs, bs.len() as int).subrange(offset_of(sizes, i) as int, offset_of(sizes, i) + sizes[i])
            == bs[i],
{
    let n = bs.len() as int;
    lemma_concat_len(bs, sizes, i);
    lemma_concat_len(bs, sizes, i + 1);
    lemma_concat_prefix(bs, i + 1, n);
    let whole = concat_all(bs, n);
    let upto = concat_all(bs, i + 1);
    let start = offset_of(sizes, i) as int;
    let end = start + sizes[i];
    assert(upto == concat_all(bs, i) + bs[i]);
    assert(whole.subrange(start, end) =~= upto.subrange(start, end)) by {
        assert(whole.subrange(0, upto.len() as int) == upto);
        assert forall|k: int| 0 <= k < end - start implies whole.subrange(start, end)[k] == upto.subrange(start, end)[k] by {
            assert(whole.subrange(0, upto.len() as int)[start + k] == whole[start + k]);
        }
    }
    assert(upto.subrange(start, end) =~= bs[i]);
}

} // verus!
