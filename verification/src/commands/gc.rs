//! What `gc` removes.

use vstd::prelude::*;
use vstd::hash_map::StringHashMap;
use crate::text::texts;

verus! {

/// The stored objects (before `n`) that no snapshot references, in order.
pub open spec fn orphans(stored: Seq<Seq<char>>, referenced: Seq<Seq<char>>, n: int) -> Seq<Seq<char>>
    decreases n,
{
    if n <= 0 {
        Seq::empty()
    } else {
        let p = orphans(stored, referenced, n - 1);
        if referenced.contains(stored[n - 1]) { p } else { p.push(stored[n - 1]) }
    }
}

/// The stored object hashes that no snapshot references.
pub fn orphaned_hashes(stored: &[String], referenced: &[String]) -> (r: Vec<String>)
    ensures
        texts(r@) == orphans(texts(stored@), texts(referenced@), stored@.len() as int),
{
    let ghost refs = texts(referenced@);
    let mut set: StringHashMap<bool> = StringHashMap::new();
    let mut i: usize = 0;
    while i < referenced.len()
        invariant
            i <= referenced@.len(),
            refs == texts(referenced@),
            forall|k: Seq<char>| #[trigger] set@.contains_key(k) <==> refs.subrange(0, i as int).contains(k),
        decreases referenced@.len() - i,
    {
        set.insert(referenced[i].clone(), true);
        proof {
            let s1 = refs.subrange(0, i + 1);
            let s0 = refs.subrange(0, i as int);
            assert(s1 =~= s0.push(refs[i as int]));
            assert forall|k: Seq<char>| #[trigger] set@.contains_key(k) <==> s1.contains(k) by {
                if s1.contains(k) && k != refs[i as int] {
                    let j = choose|j: int| 0 <= j < s1.len() && s1[j] == k;
                    assert(s0[j] == k);
                }
                if s0.contains(k) {
                    let j = choose|j: int| 0 <= j < s0.len() && s0[j] == k;
                    assert(s1[j] == k);
                }
                if k == refs[i as int] {
                    assert(s1[i as int] == k);
                }
            }
        }
        i = i + 1;
    }
    proof {
        assert(refs.subrange(0, referenced@.len() as int) =~= refs);
    }
    let ghost st = texts(stored@);
    let mut out: Vec<String> = Vec::new();
    let mut k: usize = 0;
    while k < stored.len()
        invariant
            k <= stored@.len(),
            st == texts(stored@),
            forall|q: Seq<char>| #[trigger] set@.contains_key(q) <==> refs.contains(q),
            texts(out@) == orphans(st, refs, k as int),
        decreases stored@.len() - k,
    {
        if !set.contains_key(stored[k].as_str()) {
            let h = stored[k].clone();
            let ghost before = texts(out@);
            out.push(h);
            proof {
                assert(texts(out@) =~= before.push(st[k as int]));
            }
        }
        k = k + 1;
    }
    out
}

} // verus!
