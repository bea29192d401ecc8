//! Checks on the arguments of `snap`.

use vstd::prelude::*;
use crate::commands::{all_name_chars, only_name_chars};
use crate::db::snaps::{
    deleted_paths, distinct_paths, index_map, lemma_deleted_iff, lemma_index_covers, lemma_index_entry, meta_view, FileMeta,
};
use crate::error::GError;
use crate::text::{dec_seq, lemma_parse_dec, owned, parse_u64_max, parse_unsigned, push_str, str_eq, u64_to_dec};

verus! {

/// A snapshot id is valid when it is not empty, does not start with a dot
/// and is made of ASCII letters, digits, `_`, `-` and `.`.
pub open spec fn valid_snapshot_id(id: Seq<char>) -> bool {
    id.len() > 0 && id[0] != '.' && all_name_chars(id)
}

/// Checks a user-chosen snapshot id; a refused one gives
/// `GError::InvalidSnapshotId` carrying the id.
pub fn validate_id(id: &str) -> (r: Result<(), GError>)
    ensures
        valid_snapshot_id(id@) ==> r is Ok,
        !valid_snapshot_id(id@) ==> (r matches Err(GError::InvalidSnapshotId(t)) && t@ == id@),
{
    let n = id.unicode_len();
    if n == 0 || id.get_char(0) == '.' {
        return Err(GError::InvalidSnapshotId(String::from_str(id)));
    }
    if !only_name_chars(id) {
        return Err(GError::InvalidSnapshotId(String::from_str(id)));
    }
    Ok(())
}


// ── Automatic snapshot ids ─────────────────────────────────────────────

/// The number after `base-` in `id`, when `id` has that form and the
/// number parses as a `u32`.
pub open spec fn dash_suffix(id: Seq<char>, base: Seq<char>) -> Option<nat> {
    let pre = base + "-"@;
    if pre.len() <= id.len() && id.subrange(0, pre.len() as int) == pre {
        parse_unsigned(id.subrange(pre.len() as int, id.len() as int), u32::MAX as nat)
    } else {
        None
    }
}

/// The largest `base-N` suffix among the first `n` ids.
pub open spec fn max_suffix(ids: Seq<Seq<char>>, base: Seq<char>, n: int) -> Option<nat>
    decreases n,
{
    if n <= 0 {
        None
    } else {
        let m = max_suffix(ids, base, n - 1);
        match dash_suffix(ids[n - 1], base) {
            None => m,
            Some(v) => match m {
                Some(w) => if w >= v { Some(w) } else { Some(v) },
                None => Some(v),
            },
        }
    }
}

/// The id a new snapshot gets from the timestamp text `base`: `base`
/// itself when unused, else `base-N` with `N` one more than the largest
/// suffix in use (the largest being 1 when `base` alone is in use).
pub open spec fn next_id_spec(base: Seq<char>, ids: Seq<Seq<char>>) -> Seq<char> {
    if !ids.contains(base) {
        base
    } else {
        let m = match max_suffix(ids, base, ids.len() as int) {
            Some(v) => v,
            None => 1,
        };
        base + "-"@ + dec_seq(m + 1)
    }
}

/// `max_suffix` bounds every suffix and is one of them.
proof fn lemma_max_suffix(ids: Seq<Seq<char>>, base: Seq<char>, n: int)
    requires
        0 <= n <= ids.len(),
    ensures
        max_suffix(ids, base, n) is None ==> forall|i: int| 0 <= i < n ==> #[trigger] dash_suffix(ids[i], base) is None,
        max_suffix(ids, base, n) matches Some(m) ==> (forall|i: int|
            0 <= i < n ==> (#[trigger] dash_suffix(ids[i], base) matches Some(v) && v <= m || dash_suffix(ids[i], base) is None))
            && exists|i: int| 0 <= i < n && #[trigger] dash_suffix(ids[i], base) == Some(m),
    decreases n,
{
    if n > 0 {
        lemma_max_suffix(ids, base, n - 1);
        if let Some(w) = max_suffix(ids, base, n - 1) {
            let k = choose|i: int| 0 <= i < n - 1 && #[trigger] dash_suffix(ids[i], base) == Some(w);
            assert(dash_suffix(ids[k], base) == Some(w));
        }
        assert(dash_suffix(ids[n - 1], base) == dash_suffix(ids[n - 1], base));
    }
}

/// An automatic snapshot id is never one already in use: either the
/// timestamp text itself is free, or the new suffix is above every suffix
/// in use (none of which is at the top of its range).
pub proof fn lemma_next_id_is_new(base: Seq<char>, ids: Seq<Seq<char>>)
    requires
        forall|i: int| 0 <= i < ids.len() ==> dash_suffix(#[trigger] ids[i], base) != Some(u32::MAX as nat),
    ensures
        !ids.contains(next_id_spec(base, ids)),
{
    if ids.contains(base) {
        lemma_max_suffix(ids, base, ids.len() as int);
        let m = match max_suffix(ids, base, ids.len() as int) {
            Some(v) => v,
            None => 1,
        };
        if let Some(v) = max_suffix(ids, base, ids.len() as int) {
            let k = choose|i: int| 0 <= i < ids.len() && #[trigger] dash_suffix(ids[i], base) == Some(v);
            assert(dash_suffix(ids[k], base) == Some(v));
            assert(v <= u32::MAX);
            assert(v != u32::MAX);
        }
        let id = next_id_spec(base, ids);
        let pre = base + "-"@;
        assert(id == pre + dec_seq((m + 1) as nat));
        lemma_parse_dec((m + 1) as nat, u32::MAX as nat);
        assert(id.subrange(0, pre.len() as int) =~= pre);
        assert(id.subrange(pre.len() as int, id.len() as int) =~= dec_seq((m + 1) as nat));
        assert(dash_suffix(id, base) == Some((m + 1) as nat));
        if ids.contains(id) {
            let j = choose|j: int| 0 <= j < ids.len() && ids[j] == id;
            assert(dash_suffix(ids[j], base) == Some((m + 1) as nat));
        }
    }
}

fn has_prefix_dash(id: &str, base: &str) -> (r: bool)
    ensures
        r == ((base@ + "-"@).len() <= id@.len() && id@.subrange(0, (base@ + "-"@).len() as int) == base@ + "-"@),
{
    proof {
        reveal_strlit("-");
    }
    let n = id.unicode_len();
    let b = base.unicode_len();
    if b >= n {
        return false;
    }
    let mut i: usize = 0;
    while i < b
        invariant
            b == base@.len(),
            n == id@.len(),
            b + 1 <= n,
            i <= b,
            forall|j: int| 0 <= j < i ==> id@[j] == base@[j],
        decreases b - i,
    {
        if id.get_char(i) != base.get_char(i) {
            proof {
                assert((base@ + "-"@)[i as int] == base@[i as int]);
                assert(id@.subrange(0, b + 1)[i as int] == id@[i as int]);
            }
            return false;
        }
        i = i + 1;
    }
    if id.get_char(b) != '-' {
        proof {
            assert((base@ + "-"@)[b as int] == '-');
            assert(id@.subrange(0, b + 1)[b as int] == id@[b as int]);
        }
        return false;
    }
    proof {
        assert(id@.subrange(0, b + 1) =~= base@ + "-"@);
    }
    true
}

/// The id for a new snapshot whose timestamp text is `base`, given the
/// ids already in use that start with `base`.
pub fn next_snapshot_id(base: &str, existing: &[String]) -> (r: String)
    requires
        forall|i: int| 0 <= i < existing@.len() ==> dash_suffix((#[trigger] existing@[i])@, base@) != Some(
            u32::MAX as nat,
        ),
    ensures
        r@ == next_id_spec(base@, existing@.map_values(|s: String| s@)),
{
    let ghost ids = existing@.map_values(|s: String| s@);
    let mut used = false;
    let mut best: Option<u64> = None;
    let mut i: usize = 0;
    while i < existing.len()
        invariant
            ids == existing@.map_values(|s: String| s@),
            i <= existing@.len(),
            forall|j: int| 0 <= j < existing@.len() ==> dash_suffix((#[trigger] existing@[j])@, base@) != Some(
                u32::MAX as nat,
            ),
            used == ids.subrange(0, i as int).contains(base@),
            match max_suffix(ids, base@, i as int) {
                Some(v) => best == Some(v as u64) && v < u32::MAX,
                None => best is None,
            },
        decreases existing.len() - i,
    {
        let id = existing[i].as_str();
        proof {
            assert(ids[i as int] == id@);
            assert(ids.subrange(0, i + 1) =~= ids.subrange(0, i as int).push(id@));
        }
        if str_eq(id, base) {
            used = true;
            proof {
                assert(ids.subrange(0, i + 1)[i as int] == base@);
            }
        } else {
            proof {
                let sub1 = ids.subrange(0, i + 1);
                if sub1.contains(base@) {
                    let j = choose|j: int| 0 <= j < sub1.len() && #[trigger] sub1[j] == base@;
                    assert(j < i);
                    assert(ids.subrange(0, i as int)[j] == base@);
                }
            }
        }
        proof {
            let sub0 = ids.subrange(0, i as int);
            if sub0.contains(base@) {
                let j = choose|j: int| 0 <= j < sub0.len() && #[trigger] sub0[j] == base@;
                assert(ids.subrange(0, i + 1)[j] == base@);
            }
        }
        if has_prefix_dash(id, base) {
            proof {
                reveal_strlit("-");
            }
            let idn = id.unicode_len();
            let pl = base.unicode_len() + 1;
            let rest = id.substring_char(pl, idn);
            proof {
                reveal_strlit("-");
                assert(rest@ == id@.subrange((base@ + "-"@).len() as int, id@.len() as int));
            }
            match parse_u64_max(rest, 4294967295) {
                Some(v) => {
                    best = match best {
                        Some(w) => if w >= v { Some(w) } else { Some(v) },
                        None => Some(v),
                    };
                },
                None => {},
            }
        }
        i = i + 1;
    }
    proof {
        assert(ids.subrange(0, existing@.len() as int) =~= ids);
    }
    if !used {
        return owned(base);
    }
    let m: u64 = match best {
        Some(v) => v,
        None => 1,
    };
    let mut out = owned(base);
    push_str(&mut out, "-");
    let d = u64_to_dec(m + 1);
    push_str(&mut out, d.as_str());
    out
}

// ── Files a filtered snapshot inherits ─────────────────────────────────

/// Whether `p` is the path of one of the first `n` entries.
pub open spec fn has_path(es: Seq<(String, FileMeta)>, p: Seq<char>) -> bool {
    exists|i: int| 0 <= i < es.len() && (#[trigger] es[i]).0@ == p
}

/// The parent entries among the first `n` that a filtered snapshot keeps:
/// those not walked this time and left out by the filter.
pub open spec fn inherited(parent: Seq<(String, FileMeta)>, walked: Seq<(String, FileMeta)>, filtered_out: Seq<bool>, n: int) -> Seq<(Seq<char>, Seq<char>, i64, i64)>
    decreases n,
{
    if n <= 0 {
        Seq::empty()
    } else {
        let rest = inherited(parent, walked, filtered_out, n - 1);
        if !has_path(walked, parent[n - 1].0@) && filtered_out[n - 1] {
            rest.push(meta_view(parent[n - 1].0@, parent[n - 1].1))
        } else {
            rest
        }
    }
}

pub open spec fn entry_pairs(es: Seq<(String, FileMeta)>) -> Seq<(Seq<char>, Seq<char>, i64, i64)> {
    es.map_values(|e: (String, FileMeta)| meta_view(e.0@, e.1))
}

/// A path occurs among the inherited entries exactly when some parent
/// entry with it was not walked and was left out by the filter.
proof fn lemma_inherited_has(
    parent: Seq<(String, FileMeta)>,
    walked: Seq<(String, FileMeta)>,
    filtered_out: Seq<bool>,
    n: int,
    p: Seq<char>,
)
    requires
        0 <= n <= parent.len(),
        filtered_out.len() == parent.len(),
    ensures
        (exists|k: int| 0 <= k < inherited(parent, walked, filtered_out, n).len()
            && #[trigger] inherited(parent, walked, filtered_out, n)[k].0 == p) <==> (exists|i: int|
            0 <= i < n && (#[trigger] parent[i]).0@ == p && !has_path(walked, p) && filtered_out[i]),
    decreases n,
{
    if n > 0 {
        lemma_inherited_has(parent, walked, filtered_out, n - 1, p);
        let prev = inherited(parent, walked, filtered_out, n - 1);
        let cur = inherited(parent, walked, filtered_out, n);
        let q = parent[n - 1].0@;
        if !has_path(walked, q) && filtered_out[n - 1] {
            assert(cur == prev.push(meta_view(q, parent[n - 1].1)));
            if exists|k: int| 0 <= k < cur.len() && #[trigger] cur[k].0 == p {
                let k = choose|k: int| 0 <= k < cur.len() && #[trigger] cur[k].0 == p;
                if k < prev.len() {
                    assert(prev[k].0 == p);
                } else {
                    assert(parent[n - 1].0@ == p);
                }
            }
            if exists|i: int| 0 <= i < n && (#[trigger] parent[i]).0@ == p && !has_path(walked, p) && filtered_out[i] {
                let i = choose|i: int| 0 <= i < n && (#[trigger] parent[i]).0@ == p && !has_path(walked, p) && filtered_out[i];
                if i < n - 1 {
                    let k = choose|k: int| 0 <= k < prev.len() && #[trigger] prev[k].0 == p;
                    assert(cur[k] == prev[k]);
                } else {
                    assert(cur[prev.len() as int].0 == p);
                }
            }
        } else {
            if exists|i: int| 0 <= i < n && (#[trigger] parent[i]).0@ == p && !has_path(walked, p) && filtered_out[i] {
                let i = choose|i: int| 0 <= i < n && (#[trigger] parent[i]).0@ == p && !has_path(walked, p) && filtered_out[i];
                assert(i < n - 1);
            }
        }
    }
}

/// A path is in a state's index exactly when one of its entries has it.
proof fn lemma_index_has(es: Seq<(String, FileMeta)>, p: Seq<char>)
    ensures
        index_map(es, es.len() as int).contains_key(p) <==> has_path(es, p),
{
    if index_map(es, es.len() as int).contains_key(p) {
        lemma_index_entry(es, es.len() as int, p);
        let j = index_map(es, es.len() as int)[p];
        assert(es[j].0@ == p);
    }
    if has_path(es, p) {
        let j = choose|j: int| 0 <= j < es.len() && (#[trigger] es[j]).0@ == p;
        lemma_index_covers(es, es.len() as int, j);
    }
}

/// What a filtered snapshot reports as deleted: a parent file that the
/// filter left out is never deleted (it is inherited unchanged), and one
/// the filter would have walked is deleted exactly when the walk did not
/// find it.
pub proof fn lemma_filtered_files_not_deleted(
    parent: Seq<(String, FileMeta)>,
    walked: Seq<(String, FileMeta)>,
    filtered_out: Seq<bool>,
    state: Seq<(String, FileMeta)>,
)
    requires
        filtered_out.len() == parent.len(),
        distinct_paths(parent),
        entry_pairs(state) == entry_pairs(walked) + inherited(parent, walked, filtered_out, parent.len() as int),
    ensures
        forall|i: int|
            0 <= i < parent.len() ==> (deleted_paths(parent, state, parent.len() as int).contains(
                #[trigger] parent[i].0@,
            ) <==> !has_path(walked, parent[i].0@) && !filtered_out[i]),
{
    let n = parent.len() as int;
    let inh = inherited(parent, walked, filtered_out, n);
    assert forall|i: int| 0 <= i < n implies (deleted_paths(parent, state, n).contains(#[trigger] parent[i].0@)
        <==> !has_path(walked, parent[i].0@) && !filtered_out[i]) by {
        let p = parent[i].0@;
        lemma_deleted_iff(parent, state, n, p);
        lemma_index_covers(parent, n, i);
        lemma_index_has(state, p);
        lemma_inherited_has(parent, walked, filtered_out, n, p);
        let ep = entry_pairs(state);
        let ew = entry_pairs(walked);
        // A path is in `state` exactly when it is walked or inherited.
        assert(ep.len() == state.len());
        assert(ew.len() == walked.len());
        assert(ep.len() == ew.len() + inh.len());
        assert(has_path(state, p) <==> (has_path(walked, p) || exists|k: int|
            0 <= k < inh.len() && #[trigger] inh[k].0 == p)) by {
            if has_path(state, p) {
                let j = choose|j: int| 0 <= j < state.len() && (#[trigger] state[j]).0@ == p;
                assert(ep[j] == meta_view(state[j].0@, state[j].1));
                assert(ep[j].0 == p);
                if j < ew.len() {
                    assert(ep[j] == ew[j]);
                    assert(ew[j] == meta_view(walked[j].0@, walked[j].1));
                    assert(walked[j].0@ == p);
                } else {
                    assert(ep[j] == inh[j - ew.len()]);
                    assert(inh[j - ew.len()].0 == p);
                }
            }
            if has_path(walked, p) {
                let j = choose|j: int| 0 <= j < walked.len() && (#[trigger] walked[j]).0@ == p;
                assert(ep[j] == ew[j]);
                assert(ew[j] == meta_view(walked[j].0@, walked[j].1));
                assert(ep[j] == meta_view(state[j].0@, state[j].1));
                assert(state[j].0@ == p);
            }
            if exists|k: int| 0 <= k < inh.len() && #[trigger] inh[k].0 == p {
                let k = choose|k: int| 0 <= k < inh.len() && #[trigger] inh[k].0 == p;
                let j = ew.len() + k;
                assert(ep[j] == inh[k]);
                assert(ep[j] == meta_view(state[j].0@, state[j].1));
                assert(state[j].0@ == p);
            }
        }
        // By distinct paths, the only parent entry with path `p` is `i`.
        if exists|i2: int| 0 <= i2 < n && (#[trigger] parent[i2]).0@ == p && !has_path(walked, p) && filtered_out[i2] {
            let i2 = choose|i2: int| 0 <= i2 < n && (#[trigger] parent[i2]).0@ == p && !has_path(walked, p)
                && filtered_out[i2];
            assert(i2 == i);
        }
        if !has_path(walked, p) && filtered_out[i] {
            assert(parent[i].0@ == p);
        }
    }
}

fn copy_entry(e: &(String, FileMeta)) -> (r: (String, FileMeta))
    ensures
        meta_view(r.0@, r.1) == meta_view(e.0@, e.1),
{
    (
        owned(e.0.as_str()),
        FileMeta {
            hash: crate::hashing::Hash(owned(e.1.hash.0.as_str())),
            file_size: e.1.file_size,
            modified_time: e.1.modified_time,
        },
    )
}

fn contains_path(es: &[(String, FileMeta)], p: &str) -> (r: bool)
    ensures
        r == has_path(es@, p@),
{
    let mut i: usize = 0;
    while i < es.len()
        invariant
            i <= es@.len(),
            forall|j: int| 0 <= j < i ==> (#[trigger] es@[j]).0@ != p@,
        decreases es.len() - i,
    {
        if str_eq(es[i].0.as_str(), p) {
            return true;
        }
        i = i + 1;
    }
    false
}

/// The state a snapshot with `--exclude`/`--include-only` records: the
/// walked files, then every parent file that was not walked and that the
/// filter left out (`filtered_out[i]` for `parent[i]`); a parent file the
/// filter would have walked but that was not found counts as deleted.
pub fn with_inherited(
    parent: &[(String, FileMeta)],
    walked: &[(String, FileMeta)],
    filtered_out: &[bool],
) -> (r: Vec<(String, FileMeta)>)
    requires
        filtered_out@.len() == parent@.len(),
    ensures
        entry_pairs(r@) == entry_pairs(walked@) + inherited(parent@, walked@, filtered_out@, parent@.len() as int),
{
    let mut out: Vec<(String, FileMeta)> = Vec::new();
    let mut i: usize = 0;
    while i < walked.len()
        invariant
            i <= walked@.len(),
            entry_pairs(out@) == entry_pairs(walked@.subrange(0, i as int)),
        decreases walked.len() - i,
    {
        let e = copy_entry(&walked[i]);
        let ghost before = entry_pairs(out@);
        proof {
            assert(walked@.subrange(0, i + 1) =~= walked@.subrange(0, i as int).push(walked@[i as int]));
            assert(entry_pairs(walked@.subrange(0, i + 1)) =~= entry_pairs(walked@.subrange(0, i as int)).push(
                meta_view(walked@[i as int].0@, walked@[i as int].1),
            ));
        }
        out.push(e);
        proof {
            assert(entry_pairs(out@) =~= before.push(meta_view(e.0@, e.1)));
        }
        i = i + 1;
    }
    proof {
        assert(walked@.subrange(0, walked@.len() as int) =~= walked@);
    }
    let mut k: usize = 0;
    while k < parent.len()
        invariant
            k <= parent@.len(),
            filtered_out@.len() == parent@.len(),
            entry_pairs(out@) == entry_pairs(walked@) + inherited(parent@, walked@, filtered_out@, k as int),
        decreases parent.len() - k,
    {
        let p = parent[k].0.as_str();
        if !contains_path(walked, p) && filtered_out[k] {
            let e = copy_entry(&parent[k]);
            let ghost before = entry_pairs(out@);
            out.push(e);
            proof {
                assert(entry_pairs(out@) =~= before.push(meta_view(p@, parent@[k as int].1)));
            }
        }
        k = k + 1;
    }
    out
}

} // verus!
