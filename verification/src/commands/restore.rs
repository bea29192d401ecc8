//! What `restore` and `branch --switch` copy and delete.

use vstd::prelude::*;
use crate::db::snaps::{
    change_of, changed, contents, deleted_paths, diff_states, distinct_paths, entry_view, index_map, lemma_deleted_iff,
    lemma_index_entry, meta_view, Change, FileEntry, FileMeta,
};
use crate::text::owned;

verus! {

/// The files to write and the paths to remove to bring a game directory
/// to a snapshot.
#[derive(Debug, Clone)]
pub struct RestorePlan {
    pub to_copy: Vec<FileEntry>,
    pub to_delete: Vec<String>,
}

pub open spec fn entries_view(v: Seq<FileEntry>) -> Seq<(Seq<char>, Seq<char>, i64, i64)> {
    v.map_values(|e: FileEntry| entry_view(e))
}

/// Brings `current` (the files on disk) to `target` (a snapshot's
/// files): every target file is written with `full`, else only those
/// missing or different on disk; files on disk that the snapshot lacks are
/// removed.
pub fn restore_plan(target: &[(String, FileMeta)], current: &[(String, FileMeta)], full: bool) -> (r: RestorePlan)
    requires
        distinct_paths(target@),
        distinct_paths(current@),
    ensures
        full ==> entries_view(r.to_copy@) == target@.map_values(|e: (String, FileMeta)| meta_view(e.0@, e.1)),
        !full ==> entries_view(r.to_copy@) == changed(current@, target@, Change::Added, target@.len() as int)
            + changed(current@, target@, Change::Modified, target@.len() as int),
        r.to_delete@.map_values(|p: String| p@) == deleted_paths(current@, target@, current@.len() as int),
        entries_view(r.to_copy@) == planned_copies(target@, current@, full),
{
    let d = diff_states(current, target);
    let mut to_copy: Vec<FileEntry> = Vec::new();
    if full {
        let mut i: usize = 0;
        while i < target.len()
            invariant
                i <= target@.len(),
                entries_view(to_copy@) == target@.subrange(0, i as int).map_values(
                    |e: (String, FileMeta)| meta_view(e.0@, e.1),
                ),
            decreases target@.len() - i,
        {
            let e = FileEntry {
                file_path: owned(target[i].0.as_str()),
                hash: crate::hashing::Hash(owned(target[i].1.hash.0.as_str())),
                file_size: target[i].1.file_size,
                modified_time: target[i].1.modified_time,
            };
            let ghost before = entries_view(to_copy@);
            to_copy.push(e);
            proof {
                assert(entries_view(to_copy@) =~= before.push(entry_view(e)));
                assert(target@.subrange(0, i + 1).map_values(|e: (String, FileMeta)| meta_view(e.0@, e.1))
                    =~= target@.subrange(0, i as int).map_values(|e: (String, FileMeta)| meta_view(e.0@, e.1)).push(
                    meta_view(target@[i as int].0@, target@[i as int].1),
                ));
            }
            i = i + 1;
        }
        proof {
            assert(target@.subrange(0, target@.len() as int) =~= target@);
        }
    } else {
        let mut i: usize = 0;
        while i < d.added.len()
            invariant
                i <= d.added@.len(),
                entries_view(to_copy@) == entries_view(d.added@.subrange(0, i as int)),
            decreases d.added@.len() - i,
        {
            let e = copy_entry(&d.added[i]);
            let ghost before = entries_view(to_copy@);
            to_copy.push(e);
            proof {
                assert(entries_view(to_copy@) =~= before.push(entry_view(e)));
                assert(entries_view(d.added@.subrange(0, i + 1)) =~= entries_view(d.added@.subrange(0, i as int)).push(
                    entry_view(d.added@[i as int]),
                ));
            }
            i = i + 1;
        }
        proof {
            assert(d.added@.subrange(0, d.added@.len() as int) =~= d.added@);
        }
        let ghost base = entries_view(to_copy@);
        let mut k: usize = 0;
        while k < d.modified.len()
            invariant
                k <= d.modified@.len(),
                entries_view(to_copy@) == base + entries_view(d.modified@.subrange(0, k as int)),
            decreases d.modified@.len() - k,
        {
            let e = copy_entry(&d.modified[k]);
            let ghost before = entries_view(to_copy@);
            to_copy.push(e);
            proof {
                assert(entries_view(to_copy@) =~= before.push(entry_view(e)));
                assert(entries_view(d.modified@.subrange(0, k + 1)) =~= entries_view(d.modified@.subrange(0, k as int)).push(
                    entry_view(d.modified@[k as int]),
                ));
            }
            k = k + 1;
        }
        proof {
            assert(d.modified@.subrange(0, d.modified@.len() as int) =~= d.modified@);
        }
    }
    RestorePlan { to_copy, to_delete: d.deleted }
}

fn copy_entry(e: &FileEntry) -> (r: FileEntry)
    ensures
        entry_view(r) == entry_view(*e),
{
    FileEntry {
        file_path: owned(e.file_path.as_str()),
        hash: crate::hashing::Hash(owned(e.hash.0.as_str())),
        file_size: e.file_size,
        modified_time: e.modified_time,
    }
}

// ── What a restore leaves on disk ──────────────────────────────────────

/// The content after writing the files `ws`, in order.
pub open spec fn write_all(m: Map<Seq<char>, Seq<char>>, ws: Seq<(Seq<char>, Seq<char>, i64, i64)>) -> Map<
    Seq<char>,
    Seq<char>,
>
    decreases ws.len(),
{
    if ws.len() == 0 {
        m
    } else {
        write_all(m, ws.drop_last()).insert(ws.last().0, ws.last().1)
    }
}

/// The content after removing the paths `ds`.
pub open spec fn remove_all(m: Map<Seq<char>, Seq<char>>, ds: Seq<Seq<char>>) -> Map<Seq<char>, Seq<char>>
    decreases ds.len(),
{
    if ds.len() == 0 {
        m
    } else {
        remove_all(m, ds.drop_last()).remove(ds.last())
    }
}

/// The files a restore writes, as `restore_plan` states them.
pub open spec fn planned_copies(
    target: Seq<(String, FileMeta)>,
    current: Seq<(String, FileMeta)>,
    full: bool,
) -> Seq<(Seq<char>, Seq<char>, i64, i64)> {
    if full {
        target.map_values(|e: (String, FileMeta)| meta_view(e.0@, e.1))
    } else {
        changed(current, target, Change::Added, target.len() as int) + changed(
            current,
            target,
            Change::Modified,
            target.len() as int,
        )
    }
}

proof fn lemma_write_push(m: Map<Seq<char>, Seq<char>>, ws: Seq<(Seq<char>, Seq<char>, i64, i64)>, x: (Seq<char>, Seq<char>, i64, i64))
    ensures
        write_all(m, ws.push(x)) == write_all(m, ws).insert(x.0, x.1),
{
    assert(ws.push(x).drop_last() =~= ws);
}

proof fn lemma_write_concat(
    m: Map<Seq<char>, Seq<char>>,
    xs: Seq<(Seq<char>, Seq<char>, i64, i64)>,
    ys: Seq<(Seq<char>, Seq<char>, i64, i64)>,
)
    ensures
        write_all(m, xs + ys) == write_all(write_all(m, xs), ys),
    decreases ys.len(),
{
    if ys.len() == 0 {
        assert(xs + ys =~= xs);
    } else {
        lemma_write_concat(m, xs, ys.drop_last());
        assert((xs + ys).drop_last() =~= xs + ys.drop_last());
        assert((xs + ys).last() == ys.last());
    }
}

/// Writing all of a list's files (in order) gives each path the hash of
/// its last entry.
proof fn lemma_write_every(m: Map<Seq<char>, Seq<char>>, es: Seq<(String, FileMeta)>, n: int, p: Seq<char>)
    requires
        0 <= n <= es.len(),
    ensures
        ({
            let w = write_all(m, es.subrange(0, n).map_values(|e: (String, FileMeta)| meta_view(e.0@, e.1)));
            let im = index_map(es, n);
            &&& im.contains_key(p) ==> w.contains_key(p) && w[p] == es[im[p]].1.hash.0@
            &&& !im.contains_key(p) ==> (w.contains_key(p) == m.contains_key(p) && (m.contains_key(p) ==> w[p]
                == m[p]))
        }),
    decreases n,
{
    let f = |e: (String, FileMeta)| meta_view(e.0@, e.1);
    if n == 0 {
        assert(es.subrange(0, 0).map_values(f) =~= Seq::<(Seq<char>, Seq<char>, i64, i64)>::empty());
    } else {
        lemma_write_every(m, es, n - 1, p);
        assert(es.subrange(0, n).map_values(f) =~= es.subrange(0, n - 1).map_values(f).push(f(es[n - 1])));
        lemma_write_push(m, es.subrange(0, n - 1).map_values(f), f(es[n - 1]));
    }
}

/// Writing the files of one kind of change: a path is written with the
/// target's hash exactly when its (only) target entry has that change.
proof fn lemma_write_changed(
    m: Map<Seq<char>, Seq<char>>,
    current: Seq<(String, FileMeta)>,
    target: Seq<(String, FileMeta)>,
    which: Change,
    n: int,
    p: Seq<char>,
)
    requires
        0 <= n <= target.len(),
        distinct_paths(target),
    ensures
        ({
            let w = write_all(m, changed(current, target, which, n));
            let im = index_map(target, n);
            &&& (im.contains_key(p) && change_of(current, target[im[p]]) == which) ==> w.contains_key(p) && w[p]
                == target[im[p]].1.hash.0@
            &&& !(im.contains_key(p) && change_of(current, target[im[p]]) == which) ==> (w.contains_key(p)
                == m.contains_key(p) && (m.contains_key(p) ==> w[p] == m[p]))
        }),
    decreases n,
{
    if n > 0 {
        lemma_write_changed(m, current, target, which, n - 1, p);
        let e = target[n - 1];
        let prev = changed(current, target, which, n - 1);
        if change_of(current, e) == which {
            lemma_write_push(m, prev, meta_view(e.0@, e.1));
        }
        if e.0@ == p && index_map(target, n - 1).contains_key(p) {
            lemma_index_entry(target, n - 1, p);
        }
    }
}

proof fn lemma_remove_all(m: Map<Seq<char>, Seq<char>>, ds: Seq<Seq<char>>, p: Seq<char>)
    ensures
        remove_all(m, ds).contains_key(p) == (m.contains_key(p) && !ds.contains(p)),
        remove_all(m, ds).contains_key(p) ==> remove_all(m, ds)[p] == m[p],
    decreases ds.len(),
{
    if ds.len() > 0 {
        lemma_remove_all(m, ds.drop_last(), p);
        assert(ds.contains(p) <==> ds.drop_last().contains(p) || ds.last() == p) by {
            if ds.contains(p) {
                let k = choose|k: int| 0 <= k < ds.len() && ds[k] == p;
                if k < ds.len() - 1 {
                    assert(ds.drop_last()[k] == p);
                }
            }
            if ds.drop_last().contains(p) {
                let k = choose|k: int| 0 <= k < ds.drop_last().len() && ds.drop_last()[k] == p;
                assert(ds[k] == p);
            }
            if ds.last() == p {
                assert(ds[ds.len() - 1] == p);
            }
        }
    }
}

/// Restoring a snapshot brings the game directory to the snapshot's
/// content: writing the planned files and then removing the planned paths
/// leaves exactly the snapshot's files, each with the snapshot's hash
/// (the snapshot lists each path once, as its database guarantees).
pub proof fn lemma_restore_reaches_target(
    target: Seq<(String, FileMeta)>,
    current: Seq<(String, FileMeta)>,
    full: bool,
)
    requires
        distinct_paths(target),
    ensures
        remove_all(
            write_all(contents(current), planned_copies(target, current, full)),
            deleted_paths(current, target, current.len() as int),
        ) == contents(target),
{
    let c = contents(current);
    let t = contents(target);
    let a = changed(current, target, Change::Added, target.len() as int);
    let md = changed(current, target, Change::Modified, target.len() as int);
    let w = write_all(c, planned_copies(target, current, full));
    let d = deleted_paths(current, target, current.len() as int);
    let r = remove_all(w, d);
    let imt = index_map(target, target.len() as int);
    let imc = index_map(current, current.len() as int);
    assert forall|p: Seq<char>| #[trigger] r.contains_key(p) == t.contains_key(p) && (r.contains_key(p) ==> r[p]
        == t[p]) by {
        lemma_remove_all(w, d, p);
        lemma_deleted_iff(current, target, current.len() as int, p);
        assert(t.contains_key(p) == imt.contains_key(p));
        assert(c.contains_key(p) == imc.contains_key(p));
        if imt.contains_key(p) {
            lemma_index_entry(target, target.len() as int, p);
            assert(t[p] == target[imt[p]].1.hash.0@);
        }
        if full {
            assert(target.subrange(0, target.len() as int) =~= target);
            lemma_write_every(c, target, target.len() as int, p);
            assert(planned_copies(target, current, full) == target.subrange(0, target.len() as int).map_values(
                |e: (String, FileMeta)| meta_view(e.0@, e.1),
            ));
        } else {
            assert(planned_copies(target, current, full) == a + md);
            lemma_write_concat(c, a, md);
            lemma_write_changed(c, current, target, Change::Added, target.len() as int, p);
            lemma_write_changed(write_all(c, a), current, target, Change::Modified, target.len() as int, p);
            if imt.contains_key(p) {
                let e = target[imt[p]];
                if change_of(current, e) == Change::Unchanged {
                    assert(imc.contains_key(p));
                    assert(c[p] == current[imc[p]].1.hash.0@);
                }
            }
        }
    }
    assert(r =~= t);
}

} // verus!
