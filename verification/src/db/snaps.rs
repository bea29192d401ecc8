//! Snapshot records and the diff between two snapshot states.

use vstd::prelude::*;
use vstd::hash_map::StringHashMap;
use crate::text::str_eq;

verus! {

/// One snapshot.
#[derive(Debug, Clone)]
pub struct Snap {
    pub snapshot_id: String,
    pub parent_snap_id: Option<String>,
    pub timestamp: i64,
    pub message: Option<String>,
    pub file_count: i64,
    pub added_size: i64,
}

/// One file of a snapshot.
#[derive(Debug, Clone)]
pub struct FileEntry {
    pub file_path: String,
    pub hash: crate::hashing::Hash,
    pub file_size: i64,
    pub modified_time: i64,
}

/// What is recorded of a file, keyed by its path.
#[derive(Debug, Clone, PartialEq, Eq)]
pub struct FileMeta {
    pub hash: crate::hashing::Hash,
    pub file_size: i64,
    pub modified_time: i64,
}

/// A named pointer to a snapshot.
#[derive(Debug, Clone)]
pub struct Branch {
    pub name: String,
    pub snapshot_id: String,
    pub created_at: i64,
}

/// The changes from one snapshot state to another.
#[derive(Debug, Clone)]
pub struct Diff {
    pub added: Vec<FileEntry>,
    pub modified: Vec<FileEntry>,
    pub deleted: Vec<String>,
    pub unchanged: Vec<FileEntry>,
}

impl Default for Diff {
    fn default() -> (r: Diff)
        ensures
            r.added@.len() == 0 && r.modified@.len() == 0 && r.deleted@.len() == 0 && r.unchanged@.len() == 0,
    {
        Diff { added: Vec::new(), modified: Vec::new(), deleted: Vec::new(), unchanged: Vec::new() }
    }
}

/// Sum of the sizes of the first `n` entries.
pub open spec fn size_sum(es: Seq<FileEntry>, n: int) -> int
    decreases n,
{
    if n <= 0 {
        0
    } else {
        size_sum(es, n - 1) + es[n - 1].file_size
    }
}

/// Every partial sum of the sizes fits an `i64`.
pub open spec fn sums_fit(es: Seq<FileEntry>) -> bool {
    forall|k: int| 0 <= k <= es.len() ==> i64::MIN <= #[trigger] size_sum(es, k) <= i64::MAX
}

impl Diff {
    /// Added, modified and deleted files together.
    pub fn total_changes(&self) -> (r: usize)
        requires
            self.added@.len() + self.modified@.len() + self.deleted@.len() <= usize::MAX,
        ensures
            r == self.added@.len() + self.modified@.len() + self.deleted@.len(),
    {
        self.added.len() + self.modified.len() + self.deleted.len()
    }

    /// Bytes of the added and modified files.
    pub fn added_size(&self) -> (r: i64)
        requires
            sums_fit(self.added@),
            sums_fit(self.modified@),
            i64::MIN <= size_sum(self.added@, self.added@.len() as int) + size_sum(
                self.modified@,
                self.modified@.len() as int,
            ) <= i64::MAX,
        ensures
            r == size_sum(self.added@, self.added@.len() as int) + size_sum(
                self.modified@,
                self.modified@.len() as int,
            ),
    {
        sum_sizes(&self.added) + sum_sizes(&self.modified)
    }
}

fn sum_sizes(es: &Vec<FileEntry>) -> (r: i64)
    requires
        sums_fit(es@),
    ensures
        r == size_sum(es@, es@.len() as int),
{
    let mut acc: i64 = 0;
    let mut i: usize = 0;
    while i < es.len()
        invariant
            i <= es@.len(),
            sums_fit(es@),
            acc == size_sum(es@, i as int),
        decreases es@.len() - i,
    {
        assert(i64::MIN <= size_sum(es@, i + 1) <= i64::MAX);
        acc = acc + es[i].file_size;
        i = i + 1;
    }
    acc
}

/// Index of the last entry of each path (a later entry wins, as when a
/// map is filled in order).
pub open spec fn index_map(es: Seq<(String, FileMeta)>, n: int) -> Map<Seq<char>, int>
    decreases n,
{
    if n <= 0 {
        Map::empty()
    } else {
        index_map(es, n - 1).insert(es[n - 1].0@, n - 1)
    }
}

/// The content of a list of files: the hash of each path (a later entry
/// of a path wins).
pub open spec fn contents(es: Seq<(String, FileMeta)>) -> Map<Seq<char>, Seq<char>> {
    let im = index_map(es, es.len() as int);
    Map::new(|p: Seq<char>| im.contains_key(p), |p: Seq<char>| es[im[p]].1.hash.0@)
}

/// No path occurs twice.
pub open spec fn distinct_paths(es: Seq<(String, FileMeta)>) -> bool {
    forall|i: int, j: int| 0 <= i < j < es.len() ==> es[i].0@ != es[j].0@
}

/// An entry as plain values: path, hash text, size, modification time.
pub open spec fn entry_view(e: FileEntry) -> (Seq<char>, Seq<char>, i64, i64) {
    (e.file_path@, e.hash.0@, e.file_size, e.modified_time)
}

pub open spec fn meta_view(p: Seq<char>, m: FileMeta) -> (Seq<char>, Seq<char>, i64, i64) {
    (p, m.hash.0@, m.file_size, m.modified_time)
}

/// How a file of the current state relates to the parent state.
pub enum Change {
    Added,
    Modified,
    Unchanged,
}

pub open spec fn change_of(parent: Seq<(String, FileMeta)>, e: (String, FileMeta)) -> Change {
    let pm = index_map(parent, parent.len() as int);
    if !pm.contains_key(e.0@) {
        Change::Added
    } else if parent[pm[e.0@]].1.hash.0@ != e.1.hash.0@ {
        Change::Modified
    } else {
        Change::Unchanged
    }
}

/// The current files (before `n`) whose change is `which`, in order.
pub open spec fn changed(
    parent: Seq<(String, FileMeta)>,
    current: Seq<(String, FileMeta)>,
    which: Change,
    n: int,
) -> Seq<(Seq<char>, Seq<char>, i64, i64)>
    decreases n,
{
    if n <= 0 {
        Seq::empty()
    } else {
        let p = changed(parent, current, which, n - 1);
        let e = current[n - 1];
        if change_of(parent, e) == which {
            p.push(meta_view(e.0@, e.1))
        } else {
            p
        }
    }
}

/// The parent paths (before `n`) that the current state lacks, in order.
pub open spec fn deleted_paths(parent: Seq<(String, FileMeta)>, current: Seq<(String, FileMeta)>, n: int) -> Seq<Seq<char>>
    decreases n,
{
    if n <= 0 {
        Seq::empty()
    } else {
        let p = deleted_paths(parent, current, n - 1);
        if index_map(current, current.len() as int).contains_key(parent[n - 1].0@) {
            p
        } else {
            p.push(parent[n - 1].0@)
        }
    }
}

fn index_paths(es: &[(String, FileMeta)]) -> (r: StringHashMap<usize>)
    ensures
        forall|k: Seq<char>| #[trigger] r@.contains_key(k) == index_map(es@, es@.len() as int).contains_key(k),
        forall|k: Seq<char>| r@.contains_key(k) ==> #[trigger] r@[k] as int == index_map(es@, es@.len() as int)[k],
{
    let mut m: StringHashMap<usize> = StringHashMap::new();
    let mut i: usize = 0;
    while i < es.len()
        invariant
            i <= es@.len(),
            forall|k: Seq<char>| #[trigger] m@.contains_key(k) == index_map(es@, i as int).contains_key(k),
            forall|k: Seq<char>| m@.contains_key(k) ==> #[trigger] m@[k] as int == index_map(es@, i as int)[k],
        decreases es@.len() - i,
    {
        m.insert(es[i].0.clone(), i);
        i = i + 1;
    }
    m
}

proof fn lemma_index_map_bound(es: Seq<(String, FileMeta)>, n: int, k: Seq<char>)
    requires
        index_map(es, n).contains_key(k),
    ensures
        0 <= index_map(es, n)[k] < n,
    decreases n,
{
    if n > 0 && index_map(es, n - 1).contains_key(k) && es[n - 1].0@ != k {
        lemma_index_map_bound(es, n - 1, k);
    }
}

/// Splits the current state, relative to the parent state, into added,
/// modified and unchanged files (in the current state's order) and the
/// deleted paths (in the parent's order). A file is modified when its
/// hash differs. Each state lists a path at most once.
pub fn diff_states(parent: &[(String, FileMeta)], current: &[(String, FileMeta)]) -> (r: Diff)
    requires
        distinct_paths(parent@),
        distinct_paths(current@),
    ensures
        r.added@.map_values(|e: FileEntry| entry_view(e)) == changed(parent@, current@, Change::Added, current@.len() as int),
        r.modified@.map_values(|e: FileEntry| entry_view(e)) == changed(parent@, current@, Change::Modified, current@.len() as int),
        r.unchanged@.map_values(|e: FileEntry| entry_view(e)) == changed(parent@, current@, Change::Unchanged, current@.len() as int),
        r.deleted@.map_values(|p: String| p@) == deleted_paths(parent@, current@, parent@.len() as int),
{
    let pm = index_paths(parent);
    let cm = index_paths(current);
    let mut d = Diff::default();
    let mut i: usize = 0;
    while i < current.len()
        invariant
            i <= current@.len(),
            forall|k: Seq<char>| #[trigger] pm@.contains_key(k) == index_map(parent@, parent@.len() as int).contains_key(k),
            forall|k: Seq<char>| pm@.contains_key(k) ==> #[trigger] pm@[k] as int == index_map(parent@, parent@.len() as int)[k],
            d.added@.map_values(|e: FileEntry| entry_view(e)) == changed(parent@, current@, Change::Added, i as int),
            d.modified@.map_values(|e: FileEntry| entry_view(e)) == changed(parent@, current@, Change::Modified, i as int),
            d.unchanged@.map_values(|e: FileEntry| entry_view(e)) == changed(parent@, current@, Change::Unchanged, i as int),
            d.deleted@.len() == 0,
        decreases current@.len() - i,
    {
        let p = &current[i].0;
        let m = &current[i].1;
        let entry = FileEntry {
            file_path: p.clone(),
            hash: crate::hashing::Hash(m.hash.0.clone()),
            file_size: m.file_size,
            modified_time: m.modified_time,
        };
        let ghost e = current@[i as int];
        assert(entry_view(entry) == meta_view(e.0@, e.1));
        match pm.get(p.as_str()) {
            None => {
                proof {
                    assert(change_of(parent@, e) == Change::Added);
                    assert(d.added@.push(entry).map_values(|e: FileEntry| entry_view(e)) =~= d.added@.map_values(
                        |e: FileEntry| entry_view(e),
                    ).push(entry_view(entry)));
                }
                d.added.push(entry);
            },
            Some(j) => {
                proof {
                    lemma_index_map_bound(parent@, parent@.len() as int, p@);
                }
                let same = str_eq(parent[*j].1.hash.0.as_str(), m.hash.0.as_str());
                if !same {
                    proof {
                        assert(change_of(parent@, e) == Change::Modified);
                        assert(d.modified@.push(entry).map_values(|e: FileEntry| entry_view(e)) =~= d.modified@.map_values(
                            |e: FileEntry| entry_view(e),
                        ).push(entry_view(entry)));
                    }
                    d.modified.push(entry);
                } else {
                    proof {
                        assert(change_of(parent@, e) == Change::Unchanged);
                        assert(d.unchanged@.push(entry).map_values(|e: FileEntry| entry_view(e)) =~= d.unchanged@.map_values(
                            |e: FileEntry| entry_view(e),
                        ).push(entry_view(entry)));
                    }
                    d.unchanged.push(entry);
                }
            },
        }
        i = i + 1;
    }
    let mut k: usize = 0;
    while k < parent.len()
        invariant
            k <= parent@.len(),
            forall|q: Seq<char>| #[trigger] cm@.contains_key(q) == index_map(current@, current@.len() as int).contains_key(q),
            d.added@.map_values(|e: FileEntry| entry_view(e)) == changed(parent@, current@, Change::Added, current@.len() as int),
            d.modified@.map_values(|e: FileEntry| entry_view(e)) == changed(parent@, current@, Change::Modified, current@.len() as int),
            d.unchanged@.map_values(|e: FileEntry| entry_view(e)) == changed(parent@, current@, Change::Unchanged, current@.len() as int),
            d.deleted@.map_values(|p: String| p@) == deleted_paths(parent@, current@, k as int),
        decreases parent@.len() - k,
    {
        let p = &parent[k].0;
        if !cm.contains_key(p.as_str()) {
            let q = p.clone();
            proof {
                assert(d.deleted@.push(q).map_values(|p: String| p@) =~= d.deleted@.map_values(|p: String| p@).push(q@));
            }
            d.deleted.push(q);
        }
        k = k + 1;
    }
    d
}

/// Every file of the current state is exactly one of added, modified
/// or unchanged.
pub proof fn lemma_diff_partitions(parent: Seq<(String, FileMeta)>, current: Seq<(String, FileMeta)>, n: int)
    requires
        0 <= n,
    ensures
        changed(parent, current, Change::Added, n).len() + changed(parent, current, Change::Modified, n).len()
            + changed(parent, current, Change::Unchanged, n).len() == n,
    decreases n,
{
    if n > 0 {
        lemma_diff_partitions(parent, current, n - 1);
    }
}


proof fn lemma_index_distinct(es: Seq<(String, FileMeta)>, n: int, i: int)
    requires
        0 <= i < n <= es.len(),
        distinct_paths(es),
    ensures
        index_map(es, n).contains_key(es[i].0@),
        index_map(es, n)[es[i].0@] == i,
    decreases n,
{
    if n - 1 > i {
        lemma_index_distinct(es, n - 1, i);
    }
}

/// Two states with the same content differ in nothing: every file of the
/// current state is unchanged and no path is deleted (the current state
/// lists each path once, as a directory walk does).
pub proof fn lemma_same_content_no_change(parent: Seq<(String, FileMeta)>, current: Seq<(String, FileMeta)>)
    requires
        contents(parent) == contents(current),
        distinct_paths(current),
    ensures
        changed(parent, current, Change::Added, current.len() as int).len() == 0,
        changed(parent, current, Change::Modified, current.len() as int).len() == 0,
        deleted_paths(parent, current, parent.len() as int).len() == 0,
{
    lemma_same_content_unchanged(parent, current, current.len() as int);
    lemma_same_content_none_deleted(parent, current, parent.len() as int);
}

proof fn lemma_same_content_unchanged(parent: Seq<(String, FileMeta)>, current: Seq<(String, FileMeta)>, n: int)
    requires
        0 <= n <= current.len(),
        contents(parent) == contents(current),
        distinct_paths(current),
    ensures
        changed(parent, current, Change::Added, n).len() == 0,
        changed(parent, current, Change::Modified, n).len() == 0,
    decreases n,
{
    if n > 0 {
        lemma_same_content_unchanged(parent, current, n - 1);
        let e = current[n - 1];
        let p = e.0@;
        lemma_index_distinct(current, current.len() as int, n - 1);
        assert(contents(current).contains_key(p));
        assert(contents(parent).contains_key(p));
        assert(contents(current)[p] == e.1.hash.0@);
        assert(change_of(parent, e) == Change::Unchanged);
    }
}

proof fn lemma_same_content_none_deleted(parent: Seq<(String, FileMeta)>, current: Seq<(String, FileMeta)>, n: int)
    requires
        0 <= n <= parent.len(),
        contents(parent) == contents(current),
    ensures
        deleted_paths(parent, current, n).len() == 0,
    decreases n,
{
    if n > 0 {
        lemma_same_content_none_deleted(parent, current, n - 1);
        let p = parent[n - 1].0@;
        assert(index_map(parent, parent.len() as int).contains_key(p)) by {
            lemma_index_covers(parent, parent.len() as int, n - 1);
        }
        assert(contents(parent).contains_key(p));
        assert(contents(current).contains_key(p));
    }
}

/// Every path among the first `n` entries is in their index.
pub proof fn lemma_index_covers(es: Seq<(String, FileMeta)>, n: int, i: int)
    requires
        0 <= i < n <= es.len(),
    ensures
        index_map(es, n).contains_key(es[i].0@),
    decreases n,
{
    if n - 1 > i {
        lemma_index_covers(es, n - 1, i);
    }
}

/// The entry `index_map` picks for `p` has path `p`.
pub proof fn lemma_index_entry(es: Seq<(String, FileMeta)>, n: int, p: Seq<char>)
    requires
        0 <= n <= es.len(),
        index_map(es, n).contains_key(p),
    ensures
        0 <= index_map(es, n)[p] < n,
        es[index_map(es, n)[p]].0@ == p,
    decreases n,
{
    if n > 0 && es[n - 1].0@ != p {
        lemma_index_entry(es, n - 1, p);
    }
}

/// A parent path is deleted exactly when the current state lacks it.
pub proof fn lemma_deleted_iff(parent: Seq<(String, FileMeta)>, current: Seq<(String, FileMeta)>, n: int, p: Seq<char>)
    requires
        0 <= n <= parent.len(),
    ensures
        deleted_paths(parent, current, n).contains(p) <==> (index_map(parent, n).contains_key(p)
            && !index_map(current, current.len() as int).contains_key(p)),
    decreases n,
{
    if n > 0 {
        lemma_deleted_iff(parent, current, n - 1, p);
        let prev = deleted_paths(parent, current, n - 1);
        let q = parent[n - 1].0@;
        if !index_map(current, current.len() as int).contains_key(q) {
            assert(prev.push(q).contains(p) <==> prev.contains(p) || p == q) by {
                if prev.push(q).contains(p) {
                    let k = choose|k: int| 0 <= k < prev.push(q).len() && prev.push(q)[k] == p;
                    if k < prev.len() {
                        assert(prev[k] == p);
                    }
                }
                if prev.contains(p) {
                    let k = choose|k: int| 0 <= k < prev.len() && prev[k] == p;
                    assert(prev.push(q)[k] == p);
                }
                if p == q {
                    assert(prev.push(q)[prev.len() as int] == p);
                }
            }
        }
    }
}

// ── Comparing two snapshots ────────────────────────────────────────────

/// The size `a` records for path `p` (the entry that `index_map` picks).
pub open spec fn size_in(a: Seq<(String, FileMeta)>, p: Seq<char>) -> i64 {
    a[index_map(a, a.len() as int)[p]].1.file_size
}

/// What file `e` of snapshot `b` adds to the net size change from `a`:
/// its size when new, the growth when its content changed, else 0.
pub open spec fn term_b(a: Seq<(String, FileMeta)>, e: (String, FileMeta)) -> int {
    match change_of(a, e) {
        Change::Added => e.1.file_size as int,
        Change::Modified => e.1.file_size - size_in(a, e.0@),
        Change::Unchanged => 0,
    }
}

/// What file `e` of snapshot `a` adds to the net size change: minus its
/// size when `b` lacks it, else 0.
pub open spec fn term_a(b: Seq<(String, FileMeta)>, e: (String, FileMeta)) -> int {
    if index_map(b, b.len() as int).contains_key(e.0@) { 0 } else { -e.1.file_size }
}

/// The net change after the first `k` terms: `b`'s files first, then
/// `a`'s.
pub open spec fn partial_net(a: Seq<(String, FileMeta)>, b: Seq<(String, FileMeta)>, k: int) -> int
    decreases k,
{
    if k <= 0 {
        0
    } else if k <= b.len() {
        partial_net(a, b, k - 1) + term_b(a, b[k - 1])
    } else {
        partial_net(a, b, k - 1) + term_a(b, a[k - 1 - b.len()])
    }
}

/// Files of `b` that `a` lacks, with their sizes (before `n`).
pub open spec fn added_sizes(a: Seq<(String, FileMeta)>, b: Seq<(String, FileMeta)>, n: int) -> Seq<(Seq<char>, i64)>
    decreases n,
{
    if n <= 0 {
        Seq::empty()
    } else {
        let p = added_sizes(a, b, n - 1);
        if change_of(a, b[n - 1]) == Change::Added { p.push((b[n - 1].0@, b[n - 1].1.file_size)) } else { p }
    }
}

/// Files whose hash differs, with their sizes in `a` and in `b`.
pub open spec fn modified_sizes(a: Seq<(String, FileMeta)>, b: Seq<(String, FileMeta)>, n: int) -> Seq<(Seq<char>, i64, i64)>
    decreases n,
{
    if n <= 0 {
        Seq::empty()
    } else {
        let p = modified_sizes(a, b, n - 1);
        if change_of(a, b[n - 1]) == Change::Modified {
            p.push((b[n - 1].0@, size_in(a, b[n - 1].0@), b[n - 1].1.file_size))
        } else {
            p
        }
    }
}

/// Files of `a` that `b` lacks, with their sizes.
pub open spec fn deleted_sizes(a: Seq<(String, FileMeta)>, b: Seq<(String, FileMeta)>, n: int) -> Seq<(Seq<char>, i64)>
    decreases n,
{
    if n <= 0 {
        Seq::empty()
    } else {
        let p = deleted_sizes(a, b, n - 1);
        if index_map(b, b.len() as int).contains_key(a[n - 1].0@) { p } else { p.push((a[n - 1].0@, a[n - 1].1.file_size)) }
    }
}

/// Sum of the sizes in a list of (path, size).
pub open spec fn sizes_total(v: Seq<(Seq<char>, i64)>) -> int
    decreases v.len(),
{
    if v.len() == 0 { 0 } else { sizes_total(v.drop_last()) + v.last().1 }
}

/// Sum of the growths (size in `b` minus size in `a`) in a list of
/// (path, size in `a`, size in `b`).
pub open spec fn growth_total(v: Seq<(Seq<char>, i64, i64)>) -> int
    decreases v.len(),
{
    if v.len() == 0 { 0 } else { growth_total(v.drop_last()) + (v.last().2 - v.last().1) }
}

/// `m` is a path that both `a` and `b` list with different hashes, with
/// its size in `a` and its size in `b`.
pub open spec fn modified_between(a: Seq<(String, FileMeta)>, b: Seq<(String, FileMeta)>, m: (Seq<char>, i64, i64)) -> bool {
    exists|i: int, j: int|
        0 <= i < a.len() && 0 <= j < b.len() && (#[trigger] a[i]).0@ == m.0 && (#[trigger] b[j]).0@ == m.0
            && a[i].1.hash.0@ != b[j].1.hash.0@ && a[i].1.file_size == m.1 && b[j].1.file_size == m.2
}

/// The net change of `b` over `a` is what the added files bring, plus the
/// growth of every modified file (its size in `b` minus its size in `a`),
/// minus what the deleted files took; and every modified entry is a path
/// both snapshots list with different hashes, with its size in each.
pub proof fn lemma_diff_net_balance(a: Seq<(String, FileMeta)>, b: Seq<(String, FileMeta)>)
    ensures
        partial_net(a, b, (b.len() + a.len()) as int) == sizes_total(added_sizes(a, b, b.len() as int))
            + growth_total(modified_sizes(a, b, b.len() as int)) - sizes_total(deleted_sizes(a, b, a.len() as int)),
        forall|k: int| 0 <= k < modified_sizes(a, b, b.len() as int).len()
            ==> modified_between(a, b, #[trigger] modified_sizes(a, b, b.len() as int)[k]),
{
    lemma_net_over_b(a, b, b.len() as int);
    lemma_net_over_a(a, b, a.len() as int);
    lemma_modified_between(a, b, b.len() as int);
}

proof fn lemma_net_over_b(a: Seq<(String, FileMeta)>, b: Seq<(String, FileMeta)>, n: int)
    requires
        0 <= n <= b.len(),
    ensures
        partial_net(a, b, n) == sizes_total(added_sizes(a, b, n)) + growth_total(modified_sizes(a, b, n)),
    decreases n,
{
    if n > 0 {
        lemma_net_over_b(a, b, n - 1);
        let e = b[n - 1];
        let ad = added_sizes(a, b, n - 1);
        let md = modified_sizes(a, b, n - 1);
        match change_of(a, e) {
            Change::Added => {
                assert(added_sizes(a, b, n) == ad.push((e.0@, e.1.file_size)));
                assert(added_sizes(a, b, n).drop_last() == ad);
            },
            Change::Modified => {
                assert(modified_sizes(a, b, n) == md.push((e.0@, size_in(a, e.0@), e.1.file_size)));
                assert(modified_sizes(a, b, n).drop_last() == md);
            },
            Change::Unchanged => {},
        }
    }
}

proof fn lemma_net_over_a(a: Seq<(String, FileMeta)>, b: Seq<(String, FileMeta)>, i: int)
    requires
        0 <= i <= a.len(),
    ensures
        partial_net(a, b, b.len() + i) == partial_net(a, b, b.len() as int) - sizes_total(deleted_sizes(a, b, i)),
    decreases i,
{
    if i > 0 {
        lemma_net_over_a(a, b, i - 1);
        let dd = deleted_sizes(a, b, i - 1);
        if !index_map(b, b.len() as int).contains_key(a[i - 1].0@) {
            assert(deleted_sizes(a, b, i) == dd.push((a[i - 1].0@, a[i - 1].1.file_size)));
            assert(deleted_sizes(a, b, i).drop_last() == dd);
        }
    }
}

proof fn lemma_modified_between(a: Seq<(String, FileMeta)>, b: Seq<(String, FileMeta)>, n: int)
    requires
        0 <= n <= b.len(),
    ensures
        forall|k: int| 0 <= k < modified_sizes(a, b, n).len() ==> modified_between(a, b, #[trigger] modified_sizes(a, b, n)[k]),
    decreases n,
{
    if n > 0 {
        lemma_modified_between(a, b, n - 1);
        let md = modified_sizes(a, b, n - 1);
        let e = b[n - 1];
        if change_of(a, e) == Change::Modified {
            let m = modified_sizes(a, b, n);
            let p = e.0@;
            lemma_index_entry(a, a.len() as int, p);
            let i = index_map(a, a.len() as int)[p];
            assert(m == md.push((p, size_in(a, p), e.1.file_size)));
            assert forall|k: int| 0 <= k < m.len() implies modified_between(a, b, #[trigger] m[k]) by {
                if k < md.len() {
                    assert(m[k] == md[k]);
                } else {
                    assert(m[k] == (p, size_in(a, p), e.1.file_size));
                    assert(a[i].0@ == p && b[n - 1].0@ == p);
                }
            }
        }
    }
}

/// `e` is a path of `b` that `a` lacks, with its size in `b`.
pub open spec fn added_between(a: Seq<(String, FileMeta)>, b: Seq<(String, FileMeta)>, e: (Seq<char>, i64)) -> bool {
    &&& exists|j: int| 0 <= j < b.len() && (#[trigger] b[j]).0@ == e.0 && b[j].1.file_size == e.1
    &&& forall|i: int| 0 <= i < a.len() ==> (#[trigger] a[i]).0@ != e.0
}

/// `e` is a path of `a` that `b` lacks, with its size in `a`.
pub open spec fn deleted_between(a: Seq<(String, FileMeta)>, b: Seq<(String, FileMeta)>, e: (Seq<char>, i64)) -> bool {
    &&& exists|i: int| 0 <= i < a.len() && (#[trigger] a[i]).0@ == e.0 && a[i].1.file_size == e.1
    &&& forall|j: int| 0 <= j < b.len() ==> (#[trigger] b[j]).0@ != e.0
}

/// Some entry of `v` has path `p`.
pub open spec fn sized_lists(v: Seq<(Seq<char>, i64)>, p: Seq<char>) -> bool {
    exists|k: int| 0 <= k < v.len() && (#[trigger] v[k]).0 == p
}

/// Some entry of `v` has path `p`.
pub open spec fn resized_lists(v: Seq<(Seq<char>, i64, i64)>, p: Seq<char>) -> bool {
    exists|k: int| 0 <= k < v.len() && (#[trigger] v[k]).0 == p
}

proof fn lemma_absent_iff(es: Seq<(String, FileMeta)>, p: Seq<char>)
    ensures
        index_map(es, es.len() as int).contains_key(p) <==> exists|i: int| 0 <= i < es.len() && (#[trigger] es[i]).0@ == p,
{
    if index_map(es, es.len() as int).contains_key(p) {
        lemma_index_entry(es, es.len() as int, p);
        let i = index_map(es, es.len() as int)[p];
        assert(es[i].0@ == p);
    }
    if exists|i: int| 0 <= i < es.len() && (#[trigger] es[i]).0@ == p {
        let i = choose|i: int| 0 <= i < es.len() && (#[trigger] es[i]).0@ == p;
        lemma_index_covers(es, es.len() as int, i);
    }
}

/// The added files are exactly the files of `b` whose path `a` lacks, with
/// their sizes in `b`; the deleted files are exactly the files of `a`
/// whose path `b` lacks, with their sizes in `a`; and when `a` lists each
/// path once, every file of `b` whose hash differs from `a`'s for the same
/// path is among the modified files.
pub proof fn lemma_diff_lists_exact(a: Seq<(String, FileMeta)>, b: Seq<(String, FileMeta)>)
    ensures
        forall|k: int| 0 <= k < added_sizes(a, b, b.len() as int).len()
            ==> added_between(a, b, #[trigger] added_sizes(a, b, b.len() as int)[k]),
        forall|j: int| 0 <= j < b.len() && (forall|i: int| 0 <= i < a.len() ==> (#[trigger] a[i]).0@ != b[j].0@)
            ==> sized_lists(added_sizes(a, b, b.len() as int), (#[trigger] b[j]).0@),
        forall|k: int| 0 <= k < deleted_sizes(a, b, a.len() as int).len()
            ==> deleted_between(a, b, #[trigger] deleted_sizes(a, b, a.len() as int)[k]),
        forall|i: int| 0 <= i < a.len() && (forall|j: int| 0 <= j < b.len() ==> (#[trigger] b[j]).0@ != a[i].0@)
            ==> sized_lists(deleted_sizes(a, b, a.len() as int), (#[trigger] a[i]).0@),
        distinct_paths(a) ==> forall|i: int, j: int| 0 <= i < a.len() && 0 <= j < b.len() && (#[trigger] a[i]).0@
            == (#[trigger] b[j]).0@ && a[i].1.hash.0@ != b[j].1.hash.0@
            ==> resized_lists(modified_sizes(a, b, b.len() as int), b[j].0@),
{
    lemma_added_exact(a, b, b.len() as int);
    lemma_deleted_exact(a, b, a.len() as int);
    if distinct_paths(a) {
        lemma_modified_complete(a, b, b.len() as int);
    }
}

proof fn lemma_added_exact(a: Seq<(String, FileMeta)>, b: Seq<(String, FileMeta)>, n: int)
    requires
        0 <= n <= b.len(),
    ensures
        forall|k: int| 0 <= k < added_sizes(a, b, n).len() ==> added_between(a, b, #[trigger] added_sizes(a, b, n)[k]),
        forall|j: int| 0 <= j < n && (forall|i: int| 0 <= i < a.len() ==> (#[trigger] a[i]).0@ != b[j].0@)
            ==> sized_lists(added_sizes(a, b, n), (#[trigger] b[j]).0@),
    decreases n,
{
    if n > 0 {
        lemma_added_exact(a, b, n - 1);
        let ad = added_sizes(a, b, n - 1);
        let s = added_sizes(a, b, n);
        let e = b[n - 1];
        lemma_absent_iff(a, e.0@);
        if change_of(a, e) == Change::Added {
            assert(s == ad.push((e.0@, e.1.file_size)));
            assert forall|k: int| 0 <= k < s.len() implies added_between(a, b, #[trigger] s[k]) by {
                if k < ad.len() {
                    assert(s[k] == ad[k]);
                } else {
                    assert(b[n - 1].0@ == s[k].0);
                }
            }
            assert forall|j: int| 0 <= j < n && (forall|i: int| 0 <= i < a.len() ==> (#[trigger] a[i]).0@ != b[j].0@)
                implies sized_lists(s, (#[trigger] b[j]).0@) by {
                if j < n - 1 {
                    let k = choose|k: int| 0 <= k < ad.len() && (#[trigger] ad[k]).0 == b[j].0@;
                    assert(s[k] == ad[k]);
                } else {
                    assert(s[ad.len() as int].0 == b[j].0@);
                }
            }
        } else {
            assert(s == ad);
        }
    }
}

proof fn lemma_deleted_exact(a: Seq<(String, FileMeta)>, b: Seq<(String, FileMeta)>, n: int)
    requires
        0 <= n <= a.len(),
    ensures
        forall|k: int| 0 <= k < deleted_sizes(a, b, n).len() ==> deleted_between(a, b, #[trigger] deleted_sizes(a, b, n)[k]),
        forall|i: int| 0 <= i < n && (forall|j: int| 0 <= j < b.len() ==> (#[trigger] b[j]).0@ != a[i].0@)
            ==> sized_lists(deleted_sizes(a, b, n), (#[trigger] a[i]).0@),
    decreases n,
{
    if n > 0 {
        lemma_deleted_exact(a, b, n - 1);
        let dd = deleted_sizes(a, b, n - 1);
        let s = deleted_sizes(a, b, n);
        let e = a[n - 1];
        lemma_absent_iff(b, e.0@);
        if !index_map(b, b.len() as int).contains_key(e.0@) {
            assert(s == dd.push((e.0@, e.1.file_size)));
            assert forall|k: int| 0 <= k < s.len() implies deleted_between(a, b, #[trigger] s[k]) by {
                if k < dd.len() {
                    assert(s[k] == dd[k]);
                } else {
                    assert(a[n - 1].0@ == s[k].0);
                }
            }
            assert forall|i: int| 0 <= i < n && (forall|j: int| 0 <= j < b.len() ==> (#[trigger] b[j]).0@ != a[i].0@)
                implies sized_lists(s, (#[trigger] a[i]).0@) by {
                if i < n - 1 {
                    let k = choose|k: int| 0 <= k < dd.len() && (#[trigger] dd[k]).0 == a[i].0@;
                    assert(s[k] == dd[k]);
                } else {
                    assert(s[dd.len() as int].0 == a[i].0@);
                }
            }
        } else {
            assert(s == dd);
            assert forall|i: int| 0 <= i < n && (forall|j: int| 0 <= j < b.len() ==> (#[trigger] b[j]).0@ != a[i].0@)
                implies sized_lists(s, (#[trigger] a[i]).0@) by {
                if i == n - 1 {
                    let j = choose|j: int| 0 <= j < b.len() && (#[trigger] b[j]).0@ == e.0@;
                    assert(b[j].0@ != a[i].0@);
                }
            }
        }
    }
}

proof fn lemma_modified_complete(a: Seq<(String, FileMeta)>, b: Seq<(String, FileMeta)>, n: int)
    requires
        0 <= n <= b.len(),
        distinct_paths(a),
    ensures
        forall|i: int, j: int| 0 <= i < a.len() && 0 <= j < n && (#[trigger] a[i]).0@ == (#[trigger] b[j]).0@
            && a[i].1.hash.0@ != b[j].1.hash.0@ ==> resized_lists(modified_sizes(a, b, n), b[j].0@),
    decreases n,
{
    if n > 0 {
        lemma_modified_complete(a, b, n - 1);
        let md = modified_sizes(a, b, n - 1);
        let s = modified_sizes(a, b, n);
        assert forall|i: int, j: int| 0 <= i < a.len() && 0 <= j < n && (#[trigger] a[i]).0@ == (#[trigger] b[j]).0@
            && a[i].1.hash.0@ != b[j].1.hash.0@ implies resized_lists(s, b[j].0@) by {
            if j < n - 1 {
                let k = choose|k: int| 0 <= k < md.len() && (#[trigger] md[k]).0 == b[j].0@;
                if s != md {
                    assert(s == md.push((b[n - 1].0@, size_in(a, b[n - 1].0@), b[n - 1].1.file_size)));
                }
                assert(s[k] == md[k]);
            } else {
                let p = b[j].0@;
                lemma_index_covers(a, a.len() as int, i);
                lemma_index_entry(a, a.len() as int, p);
                let q = index_map(a, a.len() as int)[p];
                assert(a[q].0@ == a[i].0@);
                assert(q == i);
                assert(change_of(a, b[j]) == Change::Modified);
                assert(s == md.push((p, size_in(a, p), b[j].1.file_size)));
                assert(s[md.len() as int].0 == p);
            }
        }
    }
}

/// Total size of the first `n` files of a list.
pub open spec fn files_total(es: Seq<(String, FileMeta)>, n: int) -> int
    decreases n,
{
    if n <= 0 { 0 } else { files_total(es, n - 1) + es[n - 1].1.file_size }
}

/// Equal hashes mean equal sizes for the paths both lists hold.
pub open spec fn hash_fixes_size(a: Seq<(String, FileMeta)>, b: Seq<(String, FileMeta)>) -> bool {
    forall|i: int, j: int| 0 <= i < a.len() && 0 <= j < b.len() && (#[trigger] a[i]).0@ == (#[trigger] b[j]).0@
        && a[i].1.hash.0@ == b[j].1.hash.0@ ==> a[i].1.file_size == b[j].1.file_size
}

/// Sizes in `a` of the first `n` files of `b` that `a` also holds.
spec fn shared_in_b(a: Seq<(String, FileMeta)>, b: Seq<(String, FileMeta)>, n: int) -> int
    decreases n,
{
    if n <= 0 {
        0
    } else {
        shared_in_b(a, b, n - 1) + (if index_map(a, a.len() as int).contains_key(b[n - 1].0@) {
            size_in(a, b[n - 1].0@) as int
        } else {
            0int
        })
    }
}

/// Sizes of the first `n` files of `a` whose path is in `b`.
spec fn shared_in_a(a: Seq<(String, FileMeta)>, b: Seq<(String, FileMeta)>, n: int) -> int
    decreases n,
{
    if n <= 0 {
        0
    } else {
        shared_in_a(a, b, n - 1) + (if index_map(b, b.len() as int).contains_key(a[n - 1].0@) {
            a[n - 1].1.file_size as int
        } else {
            0int
        })
    }
}

/// Sizes of the first `n` files of `a` with path `p`.
spec fn with_path(a: Seq<(String, FileMeta)>, p: Seq<char>, n: int) -> int
    decreases n,
{
    if n <= 0 { 0 } else { with_path(a, p, n - 1) + (if a[n - 1].0@ == p { a[n - 1].1.file_size as int } else { 0int }) }
}

proof fn lemma_net_b_shared(a: Seq<(String, FileMeta)>, b: Seq<(String, FileMeta)>, n: int)
    requires
        0 <= n <= b.len(),
        hash_fixes_size(a, b),
    ensures
        partial_net(a, b, n) == files_total(b, n) - shared_in_b(a, b, n),
    decreases n,
{
    if n > 0 {
        lemma_net_b_shared(a, b, n - 1);
        let e = b[n - 1];
        let p = e.0@;
        if index_map(a, a.len() as int).contains_key(p) {
            lemma_index_entry(a, a.len() as int, p);
            let i = index_map(a, a.len() as int)[p];
            assert(a[i].0@ == b[n - 1].0@);
        }
    }
}

proof fn lemma_net_a_shared(a: Seq<(String, FileMeta)>, b: Seq<(String, FileMeta)>, i: int)
    requires
        0 <= i <= a.len(),
    ensures
        partial_net(a, b, b.len() + i) == partial_net(a, b, b.len() as int) - (files_total(a, i) - shared_in_a(a, b, i)),
    decreases i,
{
    if i > 0 {
        lemma_net_a_shared(a, b, i - 1);
    }
}

proof fn lemma_with_path_distinct(a: Seq<(String, FileMeta)>, p: Seq<char>, n: int)
    requires
        0 <= n <= a.len(),
        distinct_paths(a),
    ensures
        with_path(a, p, n) == (if index_map(a, n).contains_key(p) { a[index_map(a, n)[p]].1.file_size as int } else { 0int }),
    decreases n,
{
    if n > 0 {
        lemma_with_path_distinct(a, p, n - 1);
        if a[n - 1].0@ == p && index_map(a, n - 1).contains_key(p) {
            lemma_index_entry(a, n - 1, p);
            let q = index_map(a, n - 1)[p];
            assert(a[q].0@ == a[n - 1].0@);
        }
    }
}

proof fn lemma_shared_in_b_prefix(a: Seq<(String, FileMeta)>, b: Seq<(String, FileMeta)>, c: Seq<(String, FileMeta)>, n: int)
    requires
        0 <= n <= b.len(),
        n <= c.len(),
        forall|j: int| 0 <= j < n ==> b[j] == c[j],
    ensures
        shared_in_b(a, b, n) == shared_in_b(a, c, n),
    decreases n,
{
    if n > 0 {
        lemma_shared_in_b_prefix(a, b, c, n - 1);
    }
}

/// Splits the sizes of `a` whose path is in `b` by `b`'s last path.
proof fn lemma_shared_in_a_split(a: Seq<(String, FileMeta)>, b: Seq<(String, FileMeta)>, n: int)
    requires
        0 <= n <= a.len(),
        b.len() > 0,
        distinct_paths(b),
    ensures
        shared_in_a(a, b, n) == shared_in_a(a, b.drop_last(), n) + with_path(a, b.last().0@, n),
    decreases n,
{
    if n > 0 {
        lemma_shared_in_a_split(a, b, n - 1);
        let q = a[n - 1].0@;
        let d = b.drop_last();
        lemma_absent_iff(b, q);
        lemma_absent_iff(d, q);
        if exists|j: int| 0 <= j < d.len() && (#[trigger] d[j]).0@ == q {
            let j = choose|j: int| 0 <= j < d.len() && (#[trigger] d[j]).0@ == q;
            assert(b[j] == d[j]);
            assert(b[j].0@ != b[b.len() - 1].0@);
        }
        if exists|j: int| 0 <= j < b.len() && (#[trigger] b[j]).0@ == q {
            let j = choose|j: int| 0 <= j < b.len() && (#[trigger] b[j]).0@ == q;
            if j < d.len() {
                assert(d[j] == b[j]);
            }
        }
        if q == b.last().0@ {
            assert(b[b.len() - 1].0@ == q);
        }
    }
}

proof fn lemma_shared_equal(a: Seq<(String, FileMeta)>, b: Seq<(String, FileMeta)>)
    requires
        distinct_paths(a),
        distinct_paths(b),
    ensures
        shared_in_b(a, b, b.len() as int) == shared_in_a(a, b, a.len() as int),
    decreases b.len(),
{
    if b.len() == 0 {
        lemma_shared_in_a_zero(a, b, a.len() as int);
    } else {
        let d = b.drop_last();
        assert(distinct_paths(d)) by {
            assert forall|i: int, j: int| 0 <= i < j < d.len() implies d[i].0@ != d[j].0@ by {
                assert(d[i] == b[i] && d[j] == b[j]);
            }
        }
        lemma_shared_equal(a, d);
        lemma_shared_in_b_prefix(a, b, d, d.len() as int);
        lemma_shared_in_a_split(a, b, a.len() as int);
        lemma_with_path_distinct(a, b.last().0@, a.len() as int);
    }
}

proof fn lemma_shared_in_a_zero(a: Seq<(String, FileMeta)>, b: Seq<(String, FileMeta)>, n: int)
    requires
        0 <= n <= a.len(),
        b.len() == 0,
    ensures
        shared_in_a(a, b, n) == 0,
    decreases n,
{
    if n > 0 {
        lemma_shared_in_a_zero(a, b, n - 1);
    }
}

/// When each list holds a path at most once and equal hashes mean equal
/// sizes, the net change is the total size of `b` minus the total size
/// of `a`.
pub proof fn lemma_diff_net_is_growth(a: Seq<(String, FileMeta)>, b: Seq<(String, FileMeta)>)
    requires
        distinct_paths(a),
        distinct_paths(b),
        hash_fixes_size(a, b),
    ensures
        partial_net(a, b, (b.len() + a.len()) as int) == files_total(b, b.len() as int) - files_total(a, a.len() as int),
{
    lemma_net_b_shared(a, b, b.len() as int);
    lemma_net_a_shared(a, b, a.len() as int);
    lemma_shared_equal(a, b);
}

/// The difference between two snapshots' file lists.
#[derive(Debug, Clone)]
pub struct SnapshotDiff {
    /// (path, size) of the files only `b` has.
    pub added: Vec<(String, i64)>,
    /// (path, size in `a`, size in `b`) of the files whose content changed.
    pub modified: Vec<(String, i64, i64)>,
    /// (path, size) of the files only `a` has.
    pub deleted: Vec<(String, i64)>,
    /// Bytes gained from `a` to `b`.
    pub net: i64,
}

pub open spec fn sized_view(v: Seq<(String, i64)>) -> Seq<(Seq<char>, i64)> {
    v.map_values(|t: (String, i64)| (t.0@, t.1))
}

pub open spec fn resized_view(v: Seq<(String, i64, i64)>) -> Seq<(Seq<char>, i64, i64)> {
    v.map_values(|t: (String, i64, i64)| (t.0@, t.1, t.2))
}

/// Compares the files of snapshot `a` with those of snapshot `b`: the
/// added and modified files in `b`'s order, the deleted ones in `a`'s,
/// and the net size change.
pub fn snapshot_diff(a: &[(String, FileMeta)], b: &[(String, FileMeta)]) -> (r: SnapshotDiff)
    requires
        forall|j: int| 0 <= j < b@.len() ==> i64::MIN <= #[trigger] term_b(a@, b@[j]) <= i64::MAX,
        forall|k: int| 0 <= k <= b@.len() + a@.len() ==> i64::MIN <= #[trigger] partial_net(a@, b@, k) <= i64::MAX,
    ensures
        sized_view(r.added@) == added_sizes(a@, b@, b@.len() as int),
        resized_view(r.modified@) == modified_sizes(a@, b@, b@.len() as int),
        sized_view(r.deleted@) == deleted_sizes(a@, b@, a@.len() as int),
        r.net == partial_net(a@, b@, (b@.len() + a@.len()) as int),
        r.net == sizes_total(sized_view(r.added@)) + growth_total(resized_view(r.modified@)) - sizes_total(
            sized_view(r.deleted@),
        ),
        forall|k: int| 0 <= k < r.modified@.len() ==> modified_between(
            a@,
            b@,
            ((#[trigger] r.modified@[k]).0@, r.modified@[k].1, r.modified@[k].2),
        ),
        forall|k: int| 0 <= k < r.added@.len() ==> added_between(a@, b@, ((#[trigger] r.added@[k]).0@, r.added@[k].1)),
        forall|j: int| 0 <= j < b@.len() && (forall|i: int| 0 <= i < a@.len() ==> (#[trigger] a@[i]).0@ != b@[j].0@)
            ==> sized_lists(sized_view(r.added@), (#[trigger] b@[j]).0@),
        forall|k: int| 0 <= k < r.deleted@.len() ==> deleted_between(a@, b@, ((#[trigger] r.deleted@[k]).0@, r.deleted@[k].1)),
        forall|i: int| 0 <= i < a@.len() && (forall|j: int| 0 <= j < b@.len() ==> (#[trigger] b@[j]).0@ != a@[i].0@)
            ==> sized_lists(sized_view(r.deleted@), (#[trigger] a@[i]).0@),
        distinct_paths(a@) ==> forall|i: int, j: int| 0 <= i < a@.len() && 0 <= j < b@.len() && (#[trigger] a@[i]).0@
            == (#[trigger] b@[j]).0@ && a@[i].1.hash.0@ != b@[j].1.hash.0@
            ==> resized_lists(resized_view(r.modified@), b@[j].0@),
        distinct_paths(a@) && distinct_paths(b@) && hash_fixes_size(a@, b@) ==> r.net == files_total(b@, b@.len() as int)
            - files_total(a@, a@.len() as int),
{
    let am = index_paths(a);
    let bm = index_paths(b);
    let mut added: Vec<(String, i64)> = Vec::new();
    let mut modified: Vec<(String, i64, i64)> = Vec::new();
    let mut deleted: Vec<(String, i64)> = Vec::new();
    let mut net: i64 = 0;
    let mut j: usize = 0;
    while j < b.len()
        invariant
            j <= b@.len(),
            forall|k: Seq<char>| #[trigger] am@.contains_key(k) == index_map(a@, a@.len() as int).contains_key(k),
            forall|k: Seq<char>| am@.contains_key(k) ==> #[trigger] am@[k] as int == index_map(a@, a@.len() as int)[k],
            forall|q: int| 0 <= q < b@.len() ==> i64::MIN <= #[trigger] term_b(a@, b@[q]) <= i64::MAX,
            forall|k: int| 0 <= k <= b@.len() + a@.len() ==> i64::MIN <= #[trigger] partial_net(a@, b@, k) <= i64::MAX,
            sized_view(added@) == added_sizes(a@, b@, j as int),
            resized_view(modified@) == modified_sizes(a@, b@, j as int),
            net == partial_net(a@, b@, j as int),
        decreases b@.len() - j,
    {
        let p = &b[j].0;
        let size = b[j].1.file_size;
        let ghost e = b@[j as int];
        assert(term_b(a@, b@[j as int]) == term_b(a@, e));
        assert(partial_net(a@, b@, j + 1) == partial_net(a@, b@, j as int) + term_b(a@, e));
        match am.get(p.as_str()) {
            None => {
                proof {
                    assert(change_of(a@, e) == Change::Added);
                }
                let q = p.clone();
                let ghost before = sized_view(added@);
                added.push((q, size));
                assert(sized_view(added@) =~= before.push((p@, size)));
                net = net + size;
            },
            Some(i) => {
                proof {
                    lemma_index_map_bound(a@, a@.len() as int, p@);
                }
                let old_size = a[*i].1.file_size;
                if !str_eq(a[*i].1.hash.0.as_str(), b[j].1.hash.0.as_str()) {
                    proof {
                        assert(change_of(a@, e) == Change::Modified);
                    }
                    let q = p.clone();
                    let ghost before = resized_view(modified@);
                    modified.push((q, old_size, size));
                    assert(resized_view(modified@) =~= before.push((p@, old_size, size)));
                    let grow: i64 = size - old_size;
                    net = net + grow;
                } else {
                    proof {
                        assert(change_of(a@, e) == Change::Unchanged);
                    }
                }
            },
        }
        j = j + 1;
    }
    let mut i: usize = 0;
    while i < a.len()
        invariant
            i <= a@.len(),
            forall|q: Seq<char>| #[trigger] bm@.contains_key(q) == index_map(b@, b@.len() as int).contains_key(q),
            forall|k: int| 0 <= k <= b@.len() + a@.len() ==> i64::MIN <= #[trigger] partial_net(a@, b@, k) <= i64::MAX,
            sized_view(deleted@) == deleted_sizes(a@, b@, i as int),
            net == partial_net(a@, b@, b@.len() + i as int),
        decreases a@.len() - i,
    {
        let p = &a[i].0;
        let size = a[i].1.file_size;
        assert(partial_net(a@, b@, b@.len() + i as int + 1) == partial_net(a@, b@, b@.len() + i as int) + term_a(b@, a@[i as int]));
        if !bm.contains_key(p.as_str()) {
            let q = p.clone();
            let ghost before = sized_view(deleted@);
            deleted.push((q, size));
            assert(sized_view(deleted@) =~= before.push((p@, size)));
            net = net - size;
        }
        i = i + 1;
    }
    proof {
        lemma_diff_lists_exact(a@, b@);
        let av = sized_view(added@);
        let dv = sized_view(deleted@);
        assert forall|k: int| 0 <= k < added@.len() implies added_between(a@, b@, ((#[trigger] added@[k]).0@, added@[k].1)) by {
            assert(av[k] == (added@[k].0@, added@[k].1));
        }
        assert forall|k: int| 0 <= k < deleted@.len() implies deleted_between(a@, b@, ((#[trigger] deleted@[k]).0@, deleted@[k].1)) by {
            assert(dv[k] == (deleted@[k].0@, deleted@[k].1));
        }
        lemma_diff_net_balance(a@, b@);
        if distinct_paths(a@) && distinct_paths(b@) && hash_fixes_size(a@, b@) {
            lemma_diff_net_is_growth(a@, b@);
        }
        let mv = resized_view(modified@);
        assert forall|k: int| 0 <= k < modified@.len() implies modified_between(
            a@,
            b@,
            ((#[trigger] modified@[k]).0@, modified@[k].1, modified@[k].2),
        ) by {
            assert(mv[k] == (modified@[k].0@, modified@[k].1, modified@[k].2));
        }
    }
    SnapshotDiff { added, modified, deleted, net }
}

} // verus!
