//! The key/value config store, git-like: a global file (`data/config`)
//! holding defaults for new games, and one per game (`data/<alias>/config`).
//!
//! The file format is one `key=value` per line; blank lines and lines
//! starting with `#` are ignored, whitespace around keys and values is
//! dropped, and a later line for a key overrides an earlier one. Keys
//! without an entry fall back to the built-in defaults.

use vstd::prelude::*;
use crate::compact::algorithm::{CompactAlgorithm, parse_algorithm_spec};
use crate::error::GError;
use crate::hashing::{HashAlgorithm, parse_hash_algorithm_spec};
use crate::sorting::{insert_by, sort_by, lemma_insert_by_at};
use crate::text::{dec_seq, is_ws, lemma_trim_plain, owned, parse_u64_max, parse_unsigned, push_char, push_str, str_eq, str_le, text_le, trim, trim_seq, u64_to_dec};

verus! {

// ── Defaults ──────────────────────────────────────────────────────────

/// Every supported key with its default value, in documentation order.
pub open spec fn defaults_spec() -> Seq<(Seq<char>, Seq<char>)> {
    seq![
        ("hash.algorithm"@, "xxhash"@),
        ("hash.threads"@, "0"@),
        ("hash.parallel"@, "true"@),
        ("snapshot.auto_gc"@, "false"@),
        ("snapshot.lock_retry"@, "3"@),
        ("compact.algorithm"@, "lzx"@),
        ("compact.threads"@, "0"@),
        ("compact.auto_pause"@, "true"@),
        ("defrag.min_free_pct"@, "15"@),
        ("defrag.fragment_threshold_pct"@, "5"@),
        ("defrag.max_extents"@, "20"@),
        ("defrag.throttle_mb"@, "500"@),
        ("defrag.throttle_sleep_ms"@, "200"@),
        ("defrag.consolidate"@, "true"@),
    ]
}

/// The first value paired with `k` in `ps`.
pub open spec fn pair_lookup(ps: Seq<(Seq<char>, Seq<char>)>, k: Seq<char>) -> Option<Seq<char>>
    decreases ps.len(),
{
    if ps.len() == 0 {
        None
    } else if ps[0].0 == k {
        Some(ps[0].1)
    } else {
        pair_lookup(ps.drop_first(), k)
    }
}

/// The built-in default of `k`, if `k` is a supported key.
pub open spec fn default_value(k: Seq<char>) -> Option<Seq<char>> {
    pair_lookup(defaults_spec(), k)
}

/// The supported keys with their defaults.
pub fn defaults() -> (r: Vec<(&'static str, &'static str)>)
    ensures
        r@.map_values(|p: (&'static str, &'static str)| (p.0@, p.1@)) == defaults_spec(),
{
    let mut r: Vec<(&'static str, &'static str)> = Vec::new();
    r.push(("hash.algorithm", "xxhash"));
    r.push(("hash.threads", "0"));
    r.push(("hash.parallel", "true"));
    r.push(("snapshot.auto_gc", "false"));
    r.push(("snapshot.lock_retry", "3"));
    r.push(("compact.algorithm", "lzx"));
    r.push(("compact.threads", "0"));
    r.push(("compact.auto_pause", "true"));
    r.push(("defrag.min_free_pct", "15"));
    r.push(("defrag.fragment_threshold_pct", "5"));
    r.push(("defrag.max_extents", "20"));
    r.push(("defrag.throttle_mb", "500"));
    r.push(("defrag.throttle_sleep_ms", "200"));
    r.push(("defrag.consolidate", "true"));
    assert(r@.map_values(|p: (&'static str, &'static str)| (p.0@, p.1@)) =~= defaults_spec());
    r
}

// ── The store ─────────────────────────────────────────────────────────

/// A config store: the entries read from (or to be written to) one file.
///
/// Entries are kept in a `Vec`; lookups take the first entry of a key,
/// and [`GimConfig::set`] replaces it, so the store behaves as a map.
#[derive(Debug, Clone)]
pub struct GimConfig {
    pub entries: Vec<(String, String)>,
    pub source_path: String,
}

/// The map the entries stand for: the first entry of a key wins.
pub open spec fn entries_map(es: Seq<(String, String)>) -> Map<Seq<char>, Seq<char>>
    decreases es.len(),
{
    if es.len() == 0 {
        Map::empty()
    } else {
        entries_map(es.drop_first()).insert(es[0].0@, es[0].1@)
    }
}

/// Index of the first entry for `k`, or the length when there is none.
pub open spec fn first_index(es: Seq<(String, String)>, k: Seq<char>) -> int
    decreases es.len(),
{
    if es.len() == 0 {
        0
    } else if es[0].0@ == k {
        0
    } else {
        1 + first_index(es.drop_first(), k)
    }
}

impl View for GimConfig {
    type V = Map<Seq<char>, Seq<char>>;

    open spec fn view(&self) -> Map<Seq<char>, Seq<char>> {
        entries_map(self.entries@)
    }
}

/// The effective value of `k`: the entry, else the default, else empty.
pub open spec fn effective_value(m: Map<Seq<char>, Seq<char>>, k: Seq<char>) -> Seq<char> {
    if m.contains_key(k) {
        m[k]
    } else {
        match default_value(k) {
            Some(d) => d,
            None => Seq::empty(),
        }
    }
}

proof fn lemma_first_index(es: Seq<(String, String)>, k: Seq<char>)
    ensures
        0 <= first_index(es, k) <= es.len(),
        forall|j: int| 0 <= j < first_index(es, k) ==> (#[trigger] es[j]).0@ != k,
        first_index(es, k) < es.len() ==> es[first_index(es, k)].0@ == k,
        entries_map(es).contains_key(k) <==> first_index(es, k) < es.len(),
        first_index(es, k) < es.len() ==> entries_map(es)[k] == es[first_index(es, k)].1@,
    decreases es.len(),
{
    if es.len() > 0 {
        lemma_first_index(es.drop_first(), k);
        assert forall|j: int| 0 <= j < first_index(es, k) implies (#[trigger] es[j]).0@ != k by {
            if j > 0 {
                assert(es[j] == es.drop_first()[j - 1]);
            }
        }
    }
}

proof fn lemma_first_index_at(es: Seq<(String, String)>, k: Seq<char>, i: int)
    requires
        0 <= i <= es.len(),
        forall|j: int| 0 <= j < i ==> (#[trigger] es[j]).0@ != k,
        i == es.len() || es[i].0@ == k,
    ensures
        first_index(es, k) == i,
    decreases es.len(),
{
    if es.len() > 0 && i > 0 {
        assert forall|j: int| 0 <= j < i - 1 implies (#[trigger] es.drop_first()[j]).0@ != k by {
            assert(es.drop_first()[j] == es[j + 1]);
        }
        lemma_first_index_at(es.drop_first(), k, i - 1);
    }
}

proof fn lemma_map_update_first(es: Seq<(String, String)>, k: Seq<char>, e: (String, String))
    requires
        first_index(es, k) < es.len(),
        e.0@ == k,
    ensures
        entries_map(es.update(first_index(es, k), e)) == entries_map(es).insert(k, e.1@),
    decreases es.len(),
{
    lemma_first_index(es, k);
    let i = first_index(es, k);
    let u = es.update(i, e);
    if i == 0 {
        assert(u.drop_first() =~= es.drop_first());
        assert(entries_map(u) =~= entries_map(es).insert(k, e.1@));
    } else {
        lemma_map_update_first(es.drop_first(), k, e);
        assert(u.drop_first() =~= es.drop_first().update(i - 1, e));
        assert(entries_map(u) =~= entries_map(es).insert(k, e.1@));
    }
}

proof fn lemma_map_push_new(es: Seq<(String, String)>, k: Seq<char>, e: (String, String))
    requires
        first_index(es, k) == es.len(),
        e.0@ == k,
    ensures
        entries_map(es.push(e)) == entries_map(es).insert(k, e.1@),
    decreases es.len(),
{
    lemma_first_index(es, k);
    let p = es.push(e);
    if es.len() == 0 {
        assert(p.drop_first() =~= Seq::<(String, String)>::empty());
        assert(entries_map(p.drop_first()) == Map::<Seq<char>, Seq<char>>::empty());
        assert(p[0] == e);
        assert(entries_map(p) == entries_map(p.drop_first()).insert(p[0].0@, p[0].1@));
        assert(entries_map(p) =~= entries_map(es).insert(k, e.1@));
    } else {
        lemma_map_push_new(es.drop_first(), k, e);
        assert(p.drop_first() =~= es.drop_first().push(e));
        assert(p[0] == es[0]);
        assert(es[0].0@ != k);
        assert(entries_map(p) == entries_map(p.drop_first()).insert(p[0].0@, p[0].1@));
        assert(entries_map(p) =~= entries_map(es).insert(k, e.1@));
    }
}

proof fn lemma_map_remove_first(es: Seq<(String, String)>, k: Seq<char>)
    requires
        first_index(es, k) < es.len(),
    ensures
        entries_map(es.remove(first_index(es, k))).remove(k) == entries_map(es).remove(k),
    decreases es.len(),
{
    lemma_first_index(es, k);
    let i = first_index(es, k);
    let r = es.remove(i);
    if i == 0 {
        assert(r =~= es.drop_first());
        assert(entries_map(es) == entries_map(es.drop_first()).insert(es[0].0@, es[0].1@));
        assert(entries_map(r).remove(k) =~= entries_map(es).remove(k));
    } else {
        lemma_map_remove_first(es.drop_first(), k);
        assert(r.drop_first() =~= es.drop_first().remove(i - 1));
        assert(r[0] == es[0]);
        assert(es[0].0@ != k);
        assert(first_index(es.drop_first(), k) == i - 1);
        assert(entries_map(r) == entries_map(r.drop_first()).insert(r[0].0@, r[0].1@));
        assert(entries_map(es) == entries_map(es.drop_first()).insert(es[0].0@, es[0].1@));
        let a = entries_map(es.drop_first().remove(i - 1));
        let b = entries_map(es.drop_first());
        assert(entries_map(r.drop_first()) == a);
        assert(a.remove(k) == b.remove(k));
        assert(entries_map(r).remove(k) =~= a.remove(k).insert(es[0].0@, es[0].1@));
        assert(entries_map(es).remove(k) =~= b.remove(k).insert(es[0].0@, es[0].1@));
    }
}

impl GimConfig {
    /// An empty store for the file at `source_path`.
    pub fn new(source_path: &str) -> (r: GimConfig)
        ensures
            r@ == Map::<Seq<char>, Seq<char>>::empty(),
            r.source_path@ == source_path@,
    {
        let r = GimConfig { entries: Vec::new(), source_path: owned(source_path) };
        assert(r@ =~= Map::<Seq<char>, Seq<char>>::empty());
        r
    }

    /// Index of the first entry for `key`, or the number of entries.
    fn find(&self, key: &str) -> (r: usize)
        ensures
            r == first_index(self.entries@, key@),
    {
        let mut i: usize = 0;
        while i < self.entries.len()
            invariant
                i <= self.entries@.len(),
                forall|j: int| 0 <= j < i ==> (#[trigger] self.entries@[j]).0@ != key@,
            decreases self.entries@.len() - i,
        {
            if str_eq(self.entries[i].0.as_str(), key) {
                proof {
                    lemma_first_index_at(self.entries@, key@, i as int);
                }
                return i;
            }
            i = i + 1;
        }
        proof {
            lemma_first_index_at(self.entries@, key@, i as int);
        }
        i
    }

    /// The value of `key`: its entry, else its default, else empty.
    pub fn get(&self, key: &str) -> (r: String)
        ensures
            r@ == effective_value(self@, key@),
    {
        let i = self.find(key);
        proof {
            lemma_first_index(self.entries@, key@);
        }
        if i < self.entries.len() {
            return self.entries[i].1.clone();
        }
        let ds = defaults();
        let ghost dv = ds@.map_values(|p: (&'static str, &'static str)| (p.0@, p.1@));
        let mut j: usize = 0;
        assert(dv.subrange(0, dv.len() as int) =~= dv);
        while j < ds.len()
            invariant
                j <= ds@.len(),
                dv == ds@.map_values(|p: (&'static str, &'static str)| (p.0@, p.1@)),
                dv == defaults_spec(),
                !self@.contains_key(key@),
                pair_lookup(dv, key@) == pair_lookup(dv.subrange(j as int, dv.len() as int), key@),
            decreases ds@.len() - j,
        {
            let (k, v) = ds[j];
            proof {
                assert(dv.subrange(j as int, dv.len() as int).drop_first() =~= dv.subrange(j + 1, dv.len() as int));
                assert(dv[j as int] == (k@, v@));
                assert(dv.subrange(j as int, dv.len() as int)[0] == dv[j as int]);
            }
            if str_eq(k, key) {
                proof {
                    assert(pair_lookup(dv.subrange(j as int, dv.len() as int), key@) == Some(v@));
                    assert(!self@.contains_key(key@));
                }
                return owned(v);
            }
            j = j + 1;
        }
        assert(dv.subrange(j as int, dv.len() as int) =~= Seq::<(Seq<char>, Seq<char>)>::empty());
        String::new()
    }

    /// Sets `key` to `value` (in memory; [`GimConfig::render`] gives the
    /// file text).
    pub fn set(&mut self, key: &str, value: &str)
        ensures
            final(self)@ == old(self)@.insert(key@, value@),
            final(self).source_path == old(self).source_path,
    {
        let i = self.find(key);
        proof {
            lemma_first_index(self.entries@, key@);
        }
        let e = (owned(key), owned(value));
        if i < self.entries.len() {
            proof {
                lemma_map_update_first(self.entries@, key@, e);
            }
            self.entries.set(i, e);
        } else {
            proof {
                lemma_map_push_new(self.entries@, key@, e);
            }
            self.entries.push(e);
        }
    }

    /// Removes `key`, so that it falls back to its default.
    pub fn unset(&mut self, key: &str)
        ensures
            final(self)@ == old(self)@.remove(key@),
            final(self).source_path == old(self).source_path,
    {
        let ghost start = self@;
        let mut i = self.find(key);
        while i < self.entries.len()
            invariant
                self@.remove(key@) == start.remove(key@),
                self.source_path == old(self).source_path,
                start == old(self)@,
                i == first_index(self.entries@, key@),
            decreases self.entries@.len(),
        {
            proof {
                lemma_first_index(self.entries@, key@);
                lemma_map_remove_first(self.entries@, key@);
            }
            self.entries.remove(i);
            i = self.find(key);
        }
        proof {
            lemma_first_index(self.entries@, key@);
        }
        assert(self@ =~= self@.remove(key@));
    }
}

/// After `set(k, v)`, `k` reads back as `v` and every other key reads as
/// before.
pub proof fn lemma_get_after_set(m: Map<Seq<char>, Seq<char>>, k: Seq<char>, v: Seq<char>, k2: Seq<char>)
    ensures
        effective_value(m.insert(k, v), k2) == (if k2 == k { v } else { effective_value(m, k2) }),
{
}

/// After `unset(k)`, `k` reads as its default (empty for an unknown key),
/// and every other key reads as before.
pub proof fn lemma_get_after_unset(m: Map<Seq<char>, Seq<char>>, k: Seq<char>, k2: Seq<char>)
    ensures
        effective_value(m.remove(k), k2) == (if k2 == k {
            match default_value(k) {
                Some(d) => d,
                None => Seq::<char>::empty(),
            }
        } else {
            effective_value(m, k2)
        }),
{
}

// ── Typed accessors ───────────────────────────────────────────────────

/// `true` when `key` is a supported key.
pub fn is_known_key(key: &str) -> (r: bool)
    ensures
        r == default_value(key@) is Some,
{
    let ds = defaults();
    let ghost dv = ds@.map_values(|p: (&'static str, &'static str)| (p.0@, p.1@));
    let mut j: usize = 0;
    assert(dv.subrange(0, dv.len() as int) =~= dv);
    while j < ds.len()
        invariant
            j <= ds@.len(),
            dv == ds@.map_values(|p: (&'static str, &'static str)| (p.0@, p.1@)),
            dv == defaults_spec(),
            pair_lookup(dv, key@) == pair_lookup(dv.subrange(j as int, dv.len() as int), key@),
        decreases ds@.len() - j,
    {
        proof {
            assert(dv.subrange(j as int, dv.len() as int).drop_first() =~= dv.subrange(j + 1, dv.len() as int));
            assert(dv.subrange(j as int, dv.len() as int)[0] == dv[j as int]);
        }
        if str_eq(ds[j].0, key) {
            return true;
        }
        j = j + 1;
    }
    assert(dv.subrange(j as int, dv.len() as int) =~= Seq::<(Seq<char>, Seq<char>)>::empty());
    false
}

/// The parsed value of `key` as an unsigned integer of maximum `max`.
pub open spec fn parsed_value(m: Map<Seq<char>, Seq<char>>, key: Seq<char>, max: nat) -> Option<nat> {
    parse_unsigned(effective_value(m, key), max)
}

/// The parsed value of `key`, or `fallback` when it does not parse.
pub open spec fn parsed_or(m: Map<Seq<char>, Seq<char>>, key: Seq<char>, max: nat, fallback: nat) -> nat {
    match parsed_value(m, key, max) {
        Some(v) => v,
        None => fallback,
    }
}

impl GimConfig {
    /// The value of `key` parsed as an unsigned integer no larger than
    /// `max` (the rules of `str::parse` for unsigned integer types).
    pub fn get_parsed(&self, key: &str, max: u64) -> (r: Option<u64>)
        ensures
            match parsed_value(self@, key@, max as nat) {
                Some(v) => r == Some(v as u64),
                None => r is None,
            },
    {
        let v = self.get(key);
        parse_u64_max(v.as_str(), max)
    }

    fn get_or(&self, key: &str, max: u64, fallback: u64) -> (r: u64)
        requires
            fallback <= max,
        ensures
            r == parsed_or(self@, key@, max as nat, fallback as nat),
            r <= max,
    {
        match self.get_parsed(key, max) {
            Some(v) => v,
            None => fallback,
        }
    }

    fn get_is_true(&self, key: &str) -> (r: bool)
        ensures
            r == (effective_value(self@, key@) == "true"@),
    {
        let v = self.get(key);
        str_eq(v.as_str(), "true")
    }

    /// The configured hash algorithm.
    pub fn hash_algorithm(&self) -> (r: Result<HashAlgorithm, GError>)
        ensures
            match parse_hash_algorithm_spec(effective_value(self@, "hash.algorithm"@)) {
                Ok(a) => r == Ok::<HashAlgorithm, GError>(a),
                Err(m) => r matches Err(GError::Other(msg)) && msg@ == m,
            },
    {
        let v = self.get("hash.algorithm");
        HashAlgorithm::parse(v.as_str())
    }

    /// Hashing threads (0 = automatic).
    pub fn hash_threads(&self) -> (r: usize)
        ensures
            r == parsed_or(self@, "hash.threads"@, usize::MAX as nat, 0),
    {
        self.get_or("hash.threads", usize::MAX as u64, 0) as usize
    }

    /// Whether to run garbage collection after a snapshot.
    pub fn auto_gc(&self) -> (r: bool)
        ensures
            r == (effective_value(self@, "snapshot.auto_gc"@) == "true"@),
    {
        self.get_is_true("snapshot.auto_gc")
    }

    /// Whether to hash files in parallel (sequential suits hard disks).
    pub fn hash_parallel(&self) -> (r: bool)
        ensures
            r == (effective_value(self@, "hash.parallel"@) == "true"@),
    {
        self.get_is_true("hash.parallel")
    }

    /// How often to retry a locked snapshot.
    pub fn lock_retry(&self) -> (r: u32)
        ensures
            r == parsed_or(self@, "snapshot.lock_retry"@, u32::MAX as nat, 3),
    {
        self.get_or("snapshot.lock_retry", u32::MAX as u64, 3) as u32
    }

    /// The configured compaction algorithm.
    pub fn compact_algorithm(&self) -> (r: Result<CompactAlgorithm, GError>)
        ensures
            match parse_algorithm_spec(effective_value(self@, "compact.algorithm"@)) {
                Ok(a) => r == Ok::<CompactAlgorithm, GError>(a),
                Err(m) => r matches Err(GError::Other(msg)) && msg@ == m,
            },
    {
        let v = self.get("compact.algorithm");
        CompactAlgorithm::parse(v.as_str())
    }

    /// Compaction threads (0 = automatic).
    pub fn compact_threads(&self) -> (r: usize)
        ensures
            r == parsed_or(self@, "compact.threads"@, usize::MAX as nat, 0),
    {
        self.get_or("compact.threads", usize::MAX as u64, 0) as usize
    }

    /// Whether background compaction pauses while a tracked game runs.
    pub fn compact_auto_pause(&self) -> (r: bool)
        ensures
            r == (effective_value(self@, "compact.auto_pause"@) == "true"@),
    {
        self.get_is_true("compact.auto_pause")
    }

    /// Minimum free space percentage for defragmentation (default 15).
    pub fn defrag_min_free_pct(&self) -> (r: u8)
        ensures
            r == parsed_or(self@, "defrag.min_free_pct"@, 255, 15),
    {
        self.get_or("defrag.min_free_pct", 255, 15) as u8
    }

    /// Fragmentation below which files are skipped (default 5%).
    pub fn defrag_fragment_threshold_pct(&self) -> (r: u8)
        ensures
            r == parsed_or(self@, "defrag.fragment_threshold_pct"@, 255, 5),
    {
        self.get_or("defrag.fragment_threshold_pct", 255, 5) as u8
    }

    /// Extent cap per file (default 20).
    pub fn defrag_max_extents(&self) -> (r: u32)
        ensures
            r == parsed_or(self@, "defrag.max_extents"@, u32::MAX as nat, 20),
    {
        self.get_or("defrag.max_extents", u32::MAX as u64, 20) as u32
    }

    /// I/O budget in MB before a throttle pause (default 500).
    pub fn defrag_throttle_mb(&self) -> (r: u64)
        ensures
            r == parsed_or(self@, "defrag.throttle_mb"@, u64::MAX as nat, 500),
    {
        self.get_or("defrag.throttle_mb", u64::MAX, 500)
    }

    /// Length of a throttle pause in ms (default 200).
    pub fn defrag_throttle_sleep_ms(&self) -> (r: u64)
        ensures
            r == parsed_or(self@, "defrag.throttle_sleep_ms"@, u64::MAX as nat, 200),
    {
        self.get_or("defrag.throttle_sleep_ms", u64::MAX, 200)
    }

    /// Whether to run the consolidation phase (default true).
    pub fn defrag_consolidate(&self) -> (r: bool)
        ensures
            r == (effective_value(self@, "defrag.consolidate"@) == "true"@),
    {
        self.get_is_true("defrag.consolidate")
    }
}

// ── Validation ────────────────────────────────────────────────────────

/// The keys of `ds`, separated by `", "`.
pub open spec fn join_keys(ds: Seq<(Seq<char>, Seq<char>)>) -> Seq<char>
    decreases ds.len(),
{
    if ds.len() == 0 {
        Seq::empty()
    } else if ds.len() == 1 {
        ds[0].0
    } else {
        join_keys(ds.drop_last()) + ", "@ + ds.last().0
    }
}

pub open spec fn unknown_key_message(key: Seq<char>) -> Seq<char> {
    "unknown config key \""@ + key + "\" (supported: "@ + join_keys(defaults_spec()) + ")"@
}

/// Checks that `key` is a supported key.
pub fn validate_key(key: &str) -> (r: Result<(), GError>)
    ensures
        default_value(key@) is Some ==> r is Ok,
        default_value(key@) is None ==> (r matches Err(GError::Other(msg)) && msg@ == unknown_key_message(key@)),
{
    if is_known_key(key) {
        return Ok(());
    }
    let ds = defaults();
    let ghost dv = ds@.map_values(|p: (&'static str, &'static str)| (p.0@, p.1@));
    let mut joined = String::new();
    let mut j: usize = 0;
    while j < ds.len()
        invariant
            j <= ds@.len(),
            dv == ds@.map_values(|p: (&'static str, &'static str)| (p.0@, p.1@)),
            joined@ == join_keys(dv.subrange(0, j as int)),
        decreases ds@.len() - j,
    {
        proof {
            assert(dv.subrange(0, j + 1).drop_last() =~= dv.subrange(0, j as int));
            assert(dv.subrange(0, j + 1).last() == dv[j as int]);
        }
        if j > 0 {
            push_str(&mut joined, ", ");
        } else {
            assert(dv.subrange(0, 0) =~= Seq::<(Seq<char>, Seq<char>)>::empty());
        }
        push_str(&mut joined, ds[j].0);
        j = j + 1;
    }
    assert(dv.subrange(0, dv.len() as int) =~= dv);
    let mut msg = owned("unknown config key \"");
    push_str(&mut msg, key);
    push_str(&mut msg, "\" (supported: ");
    push_str(&mut msg, joined.as_str());
    push_str(&mut msg, ")");
    Err(GError::Other(msg))
}

/// `invalid <key> value "<value>" (<expected>)`.
pub open spec fn invalid_message(key: Seq<char>, value: Seq<char>, expected: Seq<char>) -> Seq<char> {
    "invalid "@ + key + " value \""@ + value + "\" ("@ + expected + ")"@
}

/// `<key> <n> out of range (<range>)`.
pub open spec fn range_message(key: Seq<char>, n: nat, range: Seq<char>) -> Seq<char> {
    key + " "@ + dec_seq(n) + " out of range ("@ + range + ")"@
}

pub open spec fn check_bool(key: Seq<char>, value: Seq<char>) -> Result<(), Seq<char>> {
    if value == "true"@ || value == "false"@ {
        Ok(())
    } else {
        Err(invalid_message(key, value, "expected true|false"@))
    }
}

pub open spec fn check_uint(key: Seq<char>, value: Seq<char>, max: nat) -> Result<(), Seq<char>> {
    if parse_unsigned(value, max) is Some {
        Ok(())
    } else {
        Err(invalid_message(key, value, "expected non-negative integer"@))
    }
}

pub open spec fn check_pct(key: Seq<char>, value: Seq<char>) -> Result<(), Seq<char>> {
    match parse_unsigned(value, 255) {
        None => Err(invalid_message(key, value, "expected 0-100"@)),
        Some(n) => if n > 100 { Err(range_message(key, n, "0-100"@)) } else { Ok(()) },
    }
}

pub open spec fn check_extents(key: Seq<char>, value: Seq<char>) -> Result<(), Seq<char>> {
    match parse_unsigned(value, u32::MAX as nat) {
        None => Err(invalid_message(key, value, "expected non-negative integer"@)),
        Some(n) => if n == 0 || n > 30 { Err(range_message(key, n, "1-30"@)) } else { Ok(()) },
    }
}

/// Whether `value` is acceptable for `key`, and the message when not.
/// Unknown keys accept anything.
pub open spec fn value_check(key: Seq<char>, value: Seq<char>) -> Result<(), Seq<char>> {
    if key == "hash.algorithm"@ {
        match parse_hash_algorithm_spec(value) {
            Ok(_) => Ok(()),
            Err(m) => Err(m),
        }
    } else if key == "hash.threads"@ || key == "compact.threads"@ {
        check_uint(key, value, usize::MAX as nat)
    } else if key == "hash.parallel"@ || key == "snapshot.auto_gc"@ || key == "compact.auto_pause"@
        || key == "defrag.consolidate"@ {
        check_bool(key, value)
    } else if key == "snapshot.lock_retry"@ {
        check_uint(key, value, u32::MAX as nat)
    } else if key == "compact.algorithm"@ {
        match parse_algorithm_spec(value) {
            Ok(_) => Ok(()),
            Err(m) => Err(m),
        }
    } else if key == "defrag.min_free_pct"@ || key == "defrag.fragment_threshold_pct"@ {
        check_pct(key, value)
    } else if key == "defrag.max_extents"@ {
        check_extents(key, value)
    } else if key == "defrag.throttle_mb"@ || key == "defrag.throttle_sleep_ms"@ {
        check_uint(key, value, u64::MAX as nat)
    } else {
        Ok(())
    }
}

fn invalid_value(key: &str, value: &str, expected: &str) -> (r: GError)
    ensures
        r matches GError::Other(msg) && msg@ == invalid_message(key@, value@, expected@),
{
    let mut msg = owned("invalid ");
    push_str(&mut msg, key);
    push_str(&mut msg, " value \"");
    push_str(&mut msg, value);
    push_str(&mut msg, "\" (");
    push_str(&mut msg, expected);
    push_str(&mut msg, ")");
    GError::Other(msg)
}

fn out_of_range(key: &str, n: u64, range: &str) -> (r: GError)
    ensures
        r matches GError::Other(msg) && msg@ == range_message(key@, n as nat, range@),
{
    let mut msg = owned(key);
    push_str(&mut msg, " ");
    let d = u64_to_dec(n);
    push_str(&mut msg, d.as_str());
    push_str(&mut msg, " out of range (");
    push_str(&mut msg, range);
    push_str(&mut msg, ")");
    GError::Other(msg)
}

/// Checks that `value` is acceptable for `key`.
pub fn validate_value(key: &str, value: &str) -> (r: Result<(), GError>)
    ensures
        match value_check(key@, value@) {
            Ok(_) => r is Ok,
            Err(m) => r matches Err(GError::Other(msg)) && msg@ == m,
        },
{
    if str_eq(key, "hash.algorithm") {
        match HashAlgorithm::parse(value) {
            Ok(_) => Ok(()),
            Err(e) => Err(e),
        }
    } else if str_eq(key, "hash.threads") || str_eq(key, "compact.threads") {
        match parse_u64_max(value, usize::MAX as u64) {
            Some(_) => Ok(()),
            None => Err(invalid_value(key, value, "expected non-negative integer")),
        }
    } else if str_eq(key, "hash.parallel") || str_eq(key, "snapshot.auto_gc") || str_eq(key, "compact.auto_pause")
        || str_eq(key, "defrag.consolidate") {
        if !str_eq(value, "true") && !str_eq(value, "false") {
            Err(invalid_value(key, value, "expected true|false"))
        } else {
            Ok(())
        }
    } else if str_eq(key, "snapshot.lock_retry") {
        match parse_u64_max(value, u32::MAX as u64) {
            Some(_) => Ok(()),
            None => Err(invalid_value(key, value, "expected non-negative integer")),
        }
    } else if str_eq(key, "compact.algorithm") {
        match CompactAlgorithm::parse(value) {
            Ok(_) => Ok(()),
            Err(e) => Err(e),
        }
    } else if str_eq(key, "defrag.min_free_pct") || str_eq(key, "defrag.fragment_threshold_pct") {
        match parse_u64_max(value, 255) {
            None => Err(invalid_value(key, value, "expected 0-100")),
            Some(n) => if n > 100 { Err(out_of_range(key, n, "0-100")) } else { Ok(()) },
        }
    } else if str_eq(key, "defrag.max_extents") {
        match parse_u64_max(value, u32::MAX as u64) {
            None => Err(invalid_value(key, value, "expected non-negative integer")),
            Some(n) => if n == 0 || n > 30 { Err(out_of_range(key, n, "1-30")) } else { Ok(()) },
        }
    } else if str_eq(key, "defrag.throttle_mb") || str_eq(key, "defrag.throttle_sleep_ms") {
        match parse_u64_max(value, u64::MAX) {
            Some(_) => Ok(()),
            None => Err(invalid_value(key, value, "expected non-negative integer")),
        }
    } else {
        Ok(())
    }
}

// ── Listing ───────────────────────────────────────────────────────────

/// One listed row: key, effective value, whether it is the default.
pub open spec fn listed_default(m: Map<Seq<char>, Seq<char>>, d: (Seq<char>, Seq<char>)) -> (Seq<char>, Seq<char>, bool) {
    if m.contains_key(d.0) {
        (d.0, m[d.0], false)
    } else {
        (d.0, d.1, true)
    }
}

/// The entries before `n` that are first for their key and not a
/// supported key, as listed rows.
pub open spec fn custom_rows(es: Seq<(String, String)>, n: int) -> Seq<(Seq<char>, Seq<char>, bool)>
    decreases n,
{
    if n <= 0 {
        Seq::empty()
    } else {
        let p = custom_rows(es, n - 1);
        let e = es[n - 1];
        if default_value(e.0@) is None && first_index(es, e.0@) == n - 1 {
            p.push((e.0@, e.1@, false))
        } else {
            p
        }
    }
}

pub open spec fn row_view(t: (String, String, bool)) -> (Seq<char>, Seq<char>, bool) {
    (t.0@, t.1@, t.2)
}

impl GimConfig {
    /// Every supported key with its effective value and whether that is
    /// the default, then every other key that has an entry.
    pub fn list_all(&self) -> (r: Vec<(String, String, bool)>)
        ensures
            r@.map_values(|t: (String, String, bool)| row_view(t))
                == defaults_spec().map_values(|d: (Seq<char>, Seq<char>)| listed_default(self@, d))
                + custom_rows(self.entries@, self.entries@.len() as int),
    {
        let ds = defaults();
        let ghost dv = ds@.map_values(|p: (&'static str, &'static str)| (p.0@, p.1@));
        let ghost want = dv.map_values(|d: (Seq<char>, Seq<char>)| listed_default(self@, d));
        let mut out: Vec<(String, String, bool)> = Vec::new();
        let mut j: usize = 0;
        while j < ds.len()
            invariant
                j <= ds@.len(),
                dv == ds@.map_values(|p: (&'static str, &'static str)| (p.0@, p.1@)),
                want == dv.map_values(|d: (Seq<char>, Seq<char>)| listed_default(self@, d)),
                out@.map_values(|t: (String, String, bool)| row_view(t)) == want.subrange(0, j as int),
            decreases ds@.len() - j,
        {
            let (k, d) = ds[j];
            let i = self.find(k);
            proof {
                lemma_first_index(self.entries@, k@);
                assert(dv[j as int] == (k@, d@));
            }
            let row = if i < self.entries.len() {
                (owned(k), self.entries[i].1.clone(), false)
            } else {
                (owned(k), owned(d), true)
            };
            proof {
                assert(row_view(row) == want[j as int]);
                assert(out@.push(row).map_values(|t: (String, String, bool)| row_view(t)) =~= out@.map_values(
                    |t: (String, String, bool)| row_view(t),
                ).push(row_view(row)));
                assert(want.subrange(0, j + 1) =~= want.subrange(0, j as int).push(want[j as int]));
            }
            out.push(row);
            j = j + 1;
        }
        assert(want.subrange(0, dv.len() as int) =~= want);
        let ghost base = out@.map_values(|t: (String, String, bool)| row_view(t));
        let mut i: usize = 0;
        while i < self.entries.len()
            invariant
                i <= self.entries@.len(),
                base == want,
                dv == defaults_spec(),
                want == dv.map_values(|d: (Seq<char>, Seq<char>)| listed_default(self@, d)),
                out@.map_values(|t: (String, String, bool)| row_view(t)) == base + custom_rows(self.entries@, i as int),
            decreases self.entries@.len() - i,
        {
            let key = self.entries[i].0.as_str();
            let known = is_known_key(key);
            let first = self.find(key);
            if !known && first == i {
                let row = (self.entries[i].0.clone(), self.entries[i].1.clone(), false);
                proof {
                    assert(out@.push(row).map_values(|t: (String, String, bool)| row_view(t)) =~= out@.map_values(
                        |t: (String, String, bool)| row_view(t),
                    ).push(row_view(row)));
                    assert(base + custom_rows(self.entries@, i + 1) =~= (base + custom_rows(self.entries@, i as int)).push(
                        row_view(row),
                    ));
                }
                out.push(row);
            }
            i = i + 1;
        }
        out
    }
}

// ── The file format ───────────────────────────────────────────────────

/// `s` split at every `'\n'` (a text ending in `'\n'` has an empty last
/// piece).
pub open spec fn split_lines(s: Seq<char>) -> Seq<Seq<char>>
    decreases s.len(),
{
    if s.len() == 0 {
        seq![Seq::<char>::empty()]
    } else {
        let ls = split_lines(s.drop_last());
        if s.last() == '\n' {
            ls.push(Seq::empty())
        } else {
            ls.update(ls.len() - 1, ls.last().push(s.last()))
        }
    }
}

/// Index of the first `c` in `t`, or its length.
pub open spec fn find_char(t: Seq<char>, c: char) -> int
    decreases t.len(),
{
    if t.len() == 0 {
        0
    } else if t[0] == c {
        0
    } else {
        1 + find_char(t.drop_first(), c)
    }
}

/// The entry a line holds: none for blank lines, `#` comments and lines
/// without `=`; else the trimmed text before and after the first `=`.
pub open spec fn parse_line(line: Seq<char>) -> Option<(Seq<char>, Seq<char>)> {
    let t = trim_seq(line);
    if t.len() == 0 || t[0] == '#' {
        None
    } else {
        let p = find_char(t, '=');
        if p >= t.len() {
            None
        } else {
            Some((trim_seq(t.subrange(0, p)), trim_seq(t.subrange(p + 1, t.len() as int))))
        }
    }
}

/// The map after the lines, in order; a later line for a key wins.
pub open spec fn apply_lines(ls: Seq<Seq<char>>) -> Map<Seq<char>, Seq<char>>
    decreases ls.len(),
{
    if ls.len() == 0 {
        Map::empty()
    } else {
        let m = apply_lines(ls.drop_last());
        match parse_line(ls.last()) {
            Some((k, v)) => m.insert(k, v),
            None => m,
        }
    }
}

/// The map a config file's text stands for.
pub open spec fn config_text_map(s: Seq<char>) -> Map<Seq<char>, Seq<char>> {
    apply_lines(split_lines(s))
}

proof fn lemma_split_lines_nonempty(s: Seq<char>)
    ensures
        split_lines(s).len() >= 1,
    decreases s.len(),
{
    if s.len() > 0 {
        lemma_split_lines_nonempty(s.drop_last());
    }
}

proof fn lemma_find_char_at(t: Seq<char>, c: char, i: int)
    requires
        0 <= i <= t.len(),
        forall|j: int| 0 <= j < i ==> t[j] != c,
        i == t.len() || t[i] == c,
    ensures
        find_char(t, c) == i,
    decreases t.len(),
{
    if t.len() > 0 && i > 0 {
        lemma_find_char_at(t.drop_first(), c, i - 1);
    }
}

/// Reads one line into `cfg`.
fn apply_line(cfg: &mut GimConfig, line: &str)
    ensures
        final(cfg)@ == (match parse_line(line@) {
            Some((k, v)) => old(cfg)@.insert(k, v),
            None => old(cfg)@,
        }),
        final(cfg).source_path == old(cfg).source_path,
{
    let t = trim(line);
    let n = t.unicode_len();
    if n == 0 || t.get_char(0) == '#' {
        return;
    }
    let mut p: usize = 0;
    while p < n && t.get_char(p) != '='
        invariant
            n == t@.len(),
            p <= n,
            forall|j: int| 0 <= j < p ==> t@[j] != '=',
        decreases n - p,
    {
        p = p + 1;
    }
    proof {
        lemma_find_char_at(t@, '=', p as int);
    }
    if p == n {
        return;
    }
    let key = trim(t.substring_char(0, p));
    let value = trim(t.substring_char(p + 1, n));
    cfg.set(key, value);
}

impl GimConfig {
    /// The store for a config file's text (the parsing half of loading).
    pub fn from_text(contents: &str, source_path: &str) -> (r: GimConfig)
        ensures
            r@ == config_text_map(contents@),
            r.source_path@ == source_path@,
    {
        let mut cfg = GimConfig::new(source_path);
        let n = contents.unicode_len();
        let mut line_start: usize = 0;
        let mut i: usize = 0;
        proof {
            assert(contents@.subrange(0, 0) =~= Seq::<char>::empty());
            assert(split_lines(Seq::<char>::empty()).drop_last() =~= Seq::<Seq<char>>::empty());
            assert(cfg@ =~= apply_lines(Seq::<Seq<char>>::empty()));
        }
        while i < n
            invariant
                n == contents@.len(),
                line_start <= i <= n,
                cfg.source_path@ == source_path@,
                split_lines(contents@.subrange(0, i as int)).len() >= 1,
                cfg@ == apply_lines(split_lines(contents@.subrange(0, i as int)).drop_last()),
                split_lines(contents@.subrange(0, i as int)).last() == contents@.subrange(line_start as int, i as int),
            decreases n - i,
        {
            let ghost pre = contents@.subrange(0, i as int);
            let ghost ls = split_lines(pre);
            let c = contents.get_char(i);
            proof {
                assert(contents@.subrange(0, i + 1).drop_last() =~= pre);
                assert(contents@.subrange(0, i + 1).last() == c);
                lemma_split_lines_nonempty(pre);
            }
            if c == '\n' {
                let line = contents.substring_char(line_start, i);
                apply_line(&mut cfg, line);
                proof {
                    let ls2 = split_lines(contents@.subrange(0, i + 1));
                    assert(ls2 == ls.push(Seq::<char>::empty()));
                    assert(ls2.drop_last() =~= ls);
                    assert(ls =~= ls.drop_last().push(ls.last()));
                    assert(contents@.subrange(i + 1, i + 1) =~= Seq::<char>::empty());
                }
                line_start = i + 1;
            } else {
                proof {
                    let ls2 = split_lines(contents@.subrange(0, i + 1));
                    assert(ls2 == ls.update(ls.len() - 1, ls.last().push(c)));
                    assert(ls2.drop_last() =~= ls.drop_last());
                    assert(contents@.subrange(line_start as int, i + 1) =~= contents@.subrange(line_start as int, i as int).push(c));
                }
            }
            i = i + 1;
        }
        let ghost ls = split_lines(contents@.subrange(0, n as int));
        let line = contents.substring_char(line_start, n);
        apply_line(&mut cfg, line);
        proof {
            assert(contents@.subrange(0, n as int) =~= contents@);
            assert(ls =~= ls.drop_last().push(ls.last()));
        }
        cfg
    }
}

/// The entries before `n` that are first for their key, as pairs.
pub open spec fn first_entries(es: Seq<(String, String)>, n: int) -> Seq<(Seq<char>, Seq<char>)>
    decreases n,
{
    if n <= 0 {
        Seq::empty()
    } else {
        let p = first_entries(es, n - 1);
        if first_index(es, es[n - 1].0@) == n - 1 {
            p.push((es[n - 1].0@, es[n - 1].1@))
        } else {
            p
        }
    }
}

/// Orders pairs by key.
pub open spec fn key_le() -> spec_fn((Seq<char>, Seq<char>), (Seq<char>, Seq<char>)) -> bool {
    |a: (Seq<char>, Seq<char>), b: (Seq<char>, Seq<char>)| text_le(a.0, b.0)
}

/// `key=value` lines, each ending in `'\n'`.
pub open spec fn render_pairs(ps: Seq<(Seq<char>, Seq<char>)>) -> Seq<char>
    decreases ps.len(),
{
    if ps.len() == 0 {
        Seq::empty()
    } else {
        render_pairs(ps.drop_last()) + ps.last().0 + "="@ + ps.last().1 + "\n"@
    }
}

/// The text a store is saved as: one line per key, keys in ascending order.
pub open spec fn config_text(es: Seq<(String, String)>) -> Seq<char> {
    render_pairs(sort_by(first_entries(es, es.len() as int), key_le()))
}

pub open spec fn pair_view(p: (String, String)) -> (Seq<char>, Seq<char>) {
    (p.0@, p.1@)
}

impl GimConfig {
    /// The file text for this store (the formatting half of saving).
    pub fn render(&self) -> (r: String)
        ensures
            r@ == config_text(self.entries@),
    {
        let ghost le = key_le();
        let mut sorted: Vec<(String, String)> = Vec::new();
        let mut i: usize = 0;
        while i < self.entries.len()
            invariant
                i <= self.entries@.len(),
                le == key_le(),
                sorted@.map_values(|p: (String, String)| pair_view(p)) == sort_by(first_entries(self.entries@, i as int), le),
            decreases self.entries@.len() - i,
        {
            let key = self.entries[i].0.as_str();
            let first = self.find(key);
            let ghost before = first_entries(self.entries@, i as int);
            if first == i {
                let x = (self.entries[i].0.clone(), self.entries[i].1.clone());
                let ghost sv = sorted@.map_values(|p: (String, String)| pair_view(p));
                let mut p: usize = sorted.len();
                while p > 0 && !str_le(sorted[p - 1].0.as_str(), x.0.as_str())
                    invariant
                        p <= sorted@.len(),
                        sv == sorted@.map_values(|q: (String, String)| pair_view(q)),
                        le == key_le(),
                        forall|k: int| p <= k < sv.len() ==> !le(#[trigger] sv[k], pair_view(x)),
                    decreases p,
                {
                    proof {
                        assert(sv[p - 1] == pair_view(sorted@[p - 1]));
                    }
                    p = p - 1;
                }
                proof {
                    if p > 0 {
                        assert(sv[p - 1] == pair_view(sorted@[p - 1]));
                    }
                    lemma_insert_by_at(sv, pair_view(x), le, p as int);
                    assert(first_entries(self.entries@, i + 1) == before.push(pair_view(x)));
                    assert(before.push(pair_view(x)).drop_last() =~= before);
                    assert(sorted@.insert(p as int, x).map_values(|q: (String, String)| pair_view(q)) =~= sv.insert(
                        p as int,
                        pair_view(x),
                    ));
                }
                sorted.insert(p, x);
            }
            i = i + 1;
        }
        let ghost pv = sorted@.map_values(|p: (String, String)| pair_view(p));
        let mut out = String::new();
        let mut j: usize = 0;
        while j < sorted.len()
            invariant
                j <= sorted@.len(),
                pv == sorted@.map_values(|p: (String, String)| pair_view(p)),
                out@ == render_pairs(pv.subrange(0, j as int)),
            decreases sorted@.len() - j,
        {
            proof {
                assert(pv.subrange(0, j + 1).drop_last() =~= pv.subrange(0, j as int));
                assert(pv.subrange(0, j + 1).last() == pair_view(sorted@[j as int]));
            }
            push_str(&mut out, sorted[j].0.as_str());
            push_str(&mut out, "=");
            push_str(&mut out, sorted[j].1.as_str());
            push_str(&mut out, "\n");
            j = j + 1;
        }
        assert(pv.subrange(0, pv.len() as int) =~= pv);
        out
    }
}

proof fn lemma_map_push_old(es: Seq<(String, String)>, e: (String, String))
    requires
        first_index(es, e.0@) < es.len(),
    ensures
        entries_map(es.push(e)) == entries_map(es),
    decreases es.len(), 0int,
{
    lemma_first_index(es, e.0@);
    let p = es.push(e);
    if es[0].0@ == e.0@ {
        assert(p.drop_first() =~= es.drop_first().push(e));
        lemma_map_push_any(es.drop_first(), e);
        assert(entries_map(p) =~= entries_map(es));
    } else {
        lemma_map_push_old(es.drop_first(), e);
        assert(p.drop_first() =~= es.drop_first().push(e));
        assert(entries_map(p) =~= entries_map(es));
    }
}

/// Appending an entry adds its key only when the key is new.
proof fn lemma_map_push_any(es: Seq<(String, String)>, e: (String, String))
    ensures
        entries_map(es.push(e)) == (if entries_map(es).contains_key(e.0@) {
            entries_map(es)
        } else {
            entries_map(es).insert(e.0@, e.1@)
        }),
    decreases es.len(), 1int,
{
    lemma_first_index(es, e.0@);
    if first_index(es, e.0@) < es.len() {
        lemma_map_push_old(es, e);
    } else {
        lemma_map_push_new(es, e.0@, e);
    }
}

/// What `adopt_global` makes of a game's map: every key of the global
/// map that the game lacks is copied, then `hash.algorithm` is pinned to
/// the global value when neither has an entry.
pub open spec fn adopted(game: Map<Seq<char>, Seq<char>>, global: Map<Seq<char>, Seq<char>>) -> Map<Seq<char>, Seq<char>> {
    let merged = global.union_prefer_right(game);
    if merged.contains_key("hash.algorithm"@) {
        merged
    } else {
        merged.insert("hash.algorithm"@, effective_value(global, "hash.algorithm"@))
    }
}

impl GimConfig {
    /// Copies the global entries this game lacks, and pins
    /// `hash.algorithm` (the merging half of creating a game's config).
    pub fn adopt_global(&mut self, global: &GimConfig)
        ensures
            final(self)@ == adopted(old(self)@, global@),
            final(self).source_path == old(self).source_path,
    {
        let ghost game0 = self@;
        let ghost ge = global.entries@;
        let mut i: usize = 0;
        assert(entries_map(ge.subrange(0, 0)) =~= Map::<Seq<char>, Seq<char>>::empty());
        assert(self@ =~= entries_map(ge.subrange(0, 0)).union_prefer_right(game0));
        while i < global.entries.len()
            invariant
                i <= ge.len(),
                ge == global.entries@,
                game0 == old(self)@,
                self.source_path == old(self).source_path,
                self@ == entries_map(ge.subrange(0, i as int)).union_prefer_right(game0),
            decreases ge.len() - i,
        {
            let key = global.entries[i].0.as_str();
            let at = self.find(key);
            proof {
                lemma_first_index(self.entries@, key@);
                assert(ge.subrange(0, i + 1) =~= ge.subrange(0, i as int).push(ge[i as int]));
                lemma_map_push_any(ge.subrange(0, i as int), ge[i as int]);
            }
            if at >= self.entries.len() {
                self.set(key, global.entries[i].1.as_str());
            }
            assert(self@ =~= entries_map(ge.subrange(0, i + 1)).union_prefer_right(game0));
            i = i + 1;
        }
        assert(ge.subrange(0, ge.len() as int) =~= ge);
        let at = self.find("hash.algorithm");
        proof {
            lemma_first_index(self.entries@, "hash.algorithm"@);
        }
        if at >= self.entries.len() {
            let v = global.get("hash.algorithm");
            self.set("hash.algorithm", v.as_str());
        }
    }
}

// ── Saving then loading ────────────────────────────────────────────────

/// A key that a saved file gives back unchanged: not empty, not a
/// comment, without `=` or line breaks, and without surrounding
/// whitespace.
pub open spec fn clean_key(k: Seq<char>) -> bool {
    &&& k.len() > 0
    &&& !is_ws(k[0]) && !is_ws(k.last()) && k[0] != '#'
    &&& forall|i: int| 0 <= i < k.len() ==> #[trigger] k[i] != '=' && k[i] != '\n'
}

/// A value that a saved file gives back unchanged: without line breaks
/// and without surrounding whitespace.
pub open spec fn clean_value(v: Seq<char>) -> bool {
    &&& v.len() > 0 ==> !is_ws(v[0]) && !is_ws(v.last())
    &&& forall|i: int| 0 <= i < v.len() ==> #[trigger] v[i] != '\n'
}

pub open spec fn clean_entries(es: Seq<(String, String)>) -> bool {
    forall|i: int| 0 <= i < es.len() ==> clean_key((#[trigger] es[i]).0@) && clean_value(es[i].1@)
}

/// The line a pair is saved as, without its line break.
pub open spec fn pair_line(p: (Seq<char>, Seq<char>)) -> Seq<char> {
    p.0 + "="@ + p.1
}

/// The map of pairs, a later pair for a key winning.
pub open spec fn pairs_map(ps: Seq<(Seq<char>, Seq<char>)>) -> Map<Seq<char>, Seq<char>>
    decreases ps.len(),
{
    if ps.len() == 0 {
        Map::empty()
    } else {
        pairs_map(ps.drop_last()).insert(ps.last().0, ps.last().1)
    }
}

pub open spec fn distinct_keys(ps: Seq<(Seq<char>, Seq<char>)>) -> bool {
    forall|i: int, j: int| 0 <= i < j < ps.len() ==> (#[trigger] ps[i]).0 != (#[trigger] ps[j]).0
}

pub open spec fn clean_pairs(ps: Seq<(Seq<char>, Seq<char>)>) -> bool {
    forall|i: int| 0 <= i < ps.len() ==> clean_key((#[trigger] ps[i]).0) && clean_value(ps[i].1)
}

proof fn lemma_split_plain(a: Seq<char>, b: Seq<char>)
    requires
        forall|i: int| 0 <= i < b.len() ==> #[trigger] b[i] != '\n',
    ensures
        split_lines(a + b) == split_lines(a).update(split_lines(a).len() - 1, split_lines(a).last() + b),
    decreases b.len(),
{
    lemma_split_lines_nonempty(a);
    if b.len() == 0 {
        assert(a + b =~= a);
        assert(split_lines(a).last() + b =~= split_lines(a).last());
        assert(split_lines(a).update(split_lines(a).len() - 1, split_lines(a).last()) =~= split_lines(a));
    } else {
        let b0 = b.drop_last();
        lemma_split_plain(a, b0);
        assert((a + b).drop_last() =~= a + b0);
        assert((a + b).last() == b.last());
        lemma_split_lines_nonempty(a + b0);
        assert(split_lines(a).last() + b =~= (split_lines(a).last() + b0).push(b.last()));
        assert(split_lines(a + b) =~= split_lines(a).update(split_lines(a).len() - 1, split_lines(a).last() + b));
    }
}

proof fn lemma_split_rendered(ps: Seq<(Seq<char>, Seq<char>)>)
    requires
        clean_pairs(ps),
    ensures
        split_lines(render_pairs(ps)) == ps.map_values(|p: (Seq<char>, Seq<char>)| pair_line(p)).push(Seq::<char>::empty()),
    decreases ps.len(),
{
    reveal_strlit("=");
    reveal_strlit("\n");
    let lines = ps.map_values(|p: (Seq<char>, Seq<char>)| pair_line(p));
    if ps.len() == 0 {
        assert(render_pairs(ps) =~= Seq::<char>::empty());
        assert(lines.push(Seq::<char>::empty()) =~= seq![Seq::<char>::empty()]);
    } else {
        let q = ps.drop_last();
        assert forall|i: int| 0 <= i < q.len() implies clean_key((#[trigger] q[i]).0) && clean_value(q[i].1) by {
            assert(q[i] == ps[i]);
        }
        lemma_split_rendered(q);
        let a = render_pairs(q);
        let l = pair_line(ps.last());
        assert(clean_key(ps[ps.len() - 1].0) && clean_value(ps[ps.len() - 1].1));
        assert forall|i: int| 0 <= i < l.len() implies #[trigger] l[i] != '\n' by {
            let k = ps.last().0;
            if i < k.len() {
                assert(l[i] == k[i]);
            } else if i == k.len() {
                assert(l[i] == '=');
            } else {
                assert(l[i] == ps.last().1[i - k.len() - 1]);
            }
        }
        lemma_split_plain(a, l);
        assert(render_pairs(ps) =~= (a + l).push('\n'));
        assert((a + l).push('\n').drop_last() =~= a + l);
        lemma_split_lines_nonempty(a + l);
        let ql = q.map_values(|p: (Seq<char>, Seq<char>)| pair_line(p));
        assert(lines =~= ql.push(l));
        assert(Seq::<char>::empty() + l =~= l);
        assert(split_lines(a + l) =~= ql.push(l));
    }
}

proof fn lemma_trim_empty()
    ensures
        trim_seq(Seq::<char>::empty()) == Seq::<char>::empty(),
{
    assert(trim_seq(Seq::<char>::empty()) =~= Seq::<char>::empty());
}

proof fn lemma_parse_saved_line(p: (Seq<char>, Seq<char>))
    requires
        clean_key(p.0),
        clean_value(p.1),
    ensures
        parse_line(pair_line(p)) == Some(p),
{
    reveal_strlit("=");
    let (k, v) = p;
    let l = pair_line(p);
    assert(l.len() == k.len() + 1 + v.len());
    assert(l[0] == k[0]);
    if v.len() > 0 {
        assert(l[l.len() - 1] == v[v.len() - 1]);
    } else {
        assert(l[l.len() - 1] == '=');
    }
    lemma_trim_plain(l);
    assert forall|j: int| 0 <= j < k.len() implies l[j] != '=' by {
        assert(l[j] == k[j]);
    }
    lemma_find_char_at(l, '=', k.len() as int);
    assert(l.subrange(0, k.len() as int) =~= k);
    assert(l.subrange(k.len() as int + 1, l.len() as int) =~= v);
    assert(k[k.len() - 1] == k.last());
    lemma_trim_plain(k);
    if v.len() > 0 {
        assert(v[v.len() - 1] == v.last());
        lemma_trim_plain(v);
    } else {
        assert(v =~= Seq::<char>::empty());
        lemma_trim_empty();
    }
}

proof fn lemma_apply_saved_lines(ps: Seq<(Seq<char>, Seq<char>)>)
    requires
        clean_pairs(ps),
    ensures
        apply_lines(ps.map_values(|p: (Seq<char>, Seq<char>)| pair_line(p))) == pairs_map(ps),
    decreases ps.len(),
{
    let lines = ps.map_values(|p: (Seq<char>, Seq<char>)| pair_line(p));
    if ps.len() > 0 {
        let q = ps.drop_last();
        assert forall|i: int| 0 <= i < q.len() implies clean_key((#[trigger] q[i]).0) && clean_value(q[i].1) by {
            assert(q[i] == ps[i]);
        }
        lemma_apply_saved_lines(q);
        assert(lines.drop_last() =~= q.map_values(|p: (Seq<char>, Seq<char>)| pair_line(p)));
        assert(clean_key(ps[ps.len() - 1].0) && clean_value(ps[ps.len() - 1].1));
        lemma_parse_saved_line(ps.last());
    }
}

proof fn lemma_pairs_map_distinct(ps: Seq<(Seq<char>, Seq<char>)>)
    requires
        distinct_keys(ps),
    ensures
        forall|i: int| 0 <= i < ps.len() ==> pairs_map(ps).contains_key((#[trigger] ps[i]).0) && pairs_map(ps)[ps[i].0] == ps[i].1,
        forall|k: Seq<char>| pairs_map(ps).contains_key(k) ==> exists|i: int| 0 <= i < ps.len() && (#[trigger] ps[i]).0 == k,
    decreases ps.len(),
{
    if ps.len() > 0 {
        let q = ps.drop_last();
        assert(distinct_keys(q)) by {
            assert forall|i: int, j: int| 0 <= i < j < q.len() implies (#[trigger] q[i]).0 != (#[trigger] q[j]).0 by {
                assert(q[i] == ps[i] && q[j] == ps[j]);
            }
        }
        lemma_pairs_map_distinct(q);
        assert forall|i: int| 0 <= i < ps.len() implies pairs_map(ps).contains_key((#[trigger] ps[i]).0) && pairs_map(ps)[ps[i].0] == ps[i].1 by {
            if i < ps.len() - 1 {
                assert(q[i] == ps[i]);
                assert(ps[i].0 != ps[ps.len() - 1].0);
            }
        }
        assert forall|k: Seq<char>| pairs_map(ps).contains_key(k) implies exists|i: int| 0 <= i < ps.len() && (#[trigger] ps[i]).0 == k by {
            if k != ps.last().0 {
                assert(pairs_map(q).contains_key(k));
                let i = choose|i: int| 0 <= i < q.len() && (#[trigger] q[i]).0 == k;
                assert(ps[i] == q[i]);
            } else {
                assert(ps[ps.len() - 1].0 == k);
            }
        }
    }
}

proof fn lemma_insert_by_pos<T>(s: Seq<T>, x: T, le: spec_fn(T, T) -> bool) -> (p: int)
    ensures
        0 <= p <= s.len(),
        insert_by(s, x, le) == s.insert(p, x),
    decreases s.len(),
{
    if s.len() == 0 {
        assert(s.insert(0, x) =~= seq![x]);
        0
    } else if le(s.last(), x) {
        assert(s.insert(s.len() as int, x) =~= s.push(x));
        s.len() as int
    } else {
        let p = lemma_insert_by_pos(s.drop_last(), x, le);
        assert(s.insert(p, x) =~= s.drop_last().insert(p, x).push(s.last()));
        p
    }
}

proof fn lemma_sort_by_keeps_pairs(ps: Seq<(Seq<char>, Seq<char>)>, le: spec_fn((Seq<char>, Seq<char>), (Seq<char>, Seq<char>)) -> bool)
    requires
        distinct_keys(ps),
    ensures
        distinct_keys(sort_by(ps, le)),
        forall|x: (Seq<char>, Seq<char>)|
            #![trigger sort_by(ps, le).contains(x)]
            #![trigger ps.contains(x)]
            sort_by(ps, le).contains(x) <==> ps.contains(x),
    decreases ps.len(),
{
    if ps.len() > 0 {
        let q = ps.drop_last();
        let x = ps.last();
        assert(distinct_keys(q)) by {
            assert forall|i: int, j: int| 0 <= i < j < q.len() implies (#[trigger] q[i]).0 != (#[trigger] q[j]).0 by {
                assert(q[i] == ps[i] && q[j] == ps[j]);
            }
        }
        lemma_sort_by_keeps_pairs(q, le);
        let s = sort_by(q, le);
        let p = lemma_insert_by_pos(s, x, le);
        let r = s.insert(p, x);
        assert(sort_by(ps, le) == r);
        assert forall|k: int| 0 <= k < s.len() implies (#[trigger] s[k]).0 != x.0 by {
            assert(s.contains(s[k]));
            assert(sort_by(q, le).contains(s[k]));
            assert(q.contains(s[k]));
            let j = choose|j: int| 0 <= j < q.len() && q[j] == s[k];
            assert(ps[j] == q[j]);
            assert(ps[j].0 != ps[ps.len() - 1].0);
        }
        assert forall|i: int, j: int| 0 <= i < j < r.len() implies (#[trigger] r[i]).0 != (#[trigger] r[j]).0 by {
            if i < p && j < p {
                assert(r[i] == s[i] && r[j] == s[j]);
            } else if i < p && j == p {
                assert(r[i] == s[i]);
            } else if i < p {
                assert(r[i] == s[i] && r[j] == s[j - 1]);
            } else if i == p {
                assert(r[j] == s[j - 1]);
            } else {
                assert(r[i] == s[i - 1] && r[j] == s[j - 1]);
            }
        }
        assert forall|y: (Seq<char>, Seq<char>)| r.contains(y) <==> ps.contains(y) by {
            if r.contains(y) {
                let i = choose|i: int| 0 <= i < r.len() && r[i] == y;
                if i == p {
                    assert(ps[ps.len() - 1] == y);
                } else {
                    let si = if i < p { i } else { i - 1 };
                    assert(r[i] == s[si]);
                    assert(s.contains(y));
                    assert(sort_by(q, le).contains(y));
                    assert(q.contains(y));
                    let j = choose|j: int| 0 <= j < q.len() && q[j] == y;
                    assert(ps[j] == y);
                }
            }
            if ps.contains(y) {
                let j = choose|j: int| 0 <= j < ps.len() && ps[j] == y;
                if j == ps.len() - 1 {
                    assert(r[p] == y);
                } else {
                    assert(q[j] == y);
                    assert(q.contains(y));
                    assert(sort_by(q, le).contains(y));
                    assert(s.contains(y));
                    let i = choose|i: int| 0 <= i < s.len() && s[i] == y;
                    if i < p {
                        assert(r[i] == y);
                    } else {
                        assert(r[i + 1] == y);
                    }
                }
            }
        }
    }
}

proof fn lemma_first_entries_pairs(es: Seq<(String, String)>, n: int)
    requires
        0 <= n <= es.len(),
    ensures
        distinct_keys(first_entries(es, n)),
        forall|j: int| 0 <= j < first_entries(es, n).len() ==> {
            let f = first_index(es, (#[trigger] first_entries(es, n)[j]).0);
            &&& f < n
            &&& first_entries(es, n)[j] == (es[f].0@, es[f].1@)
        },
        forall|i: int| 0 <= i < n && first_index(es, (#[trigger] es[i]).0@) == i ==> first_entries(es, n).contains(
            (es[i].0@, es[i].1@),
        ),
    decreases n,
{
    if n > 0 {
        lemma_first_entries_pairs(es, n - 1);
        let p = first_entries(es, n - 1);
        let k = es[n - 1].0@;
        lemma_first_index(es, k);
        if first_index(es, k) == n - 1 {
            let r = p.push((k, es[n - 1].1@));
            assert(first_entries(es, n) == r);
            assert forall|j: int| 0 <= j < p.len() implies (#[trigger] p[j]).0 != k by {
                lemma_first_index(es, p[j].0);
            }
            assert forall|i: int, j: int| 0 <= i < j < r.len() implies (#[trigger] r[i]).0 != (#[trigger] r[j]).0 by {
                if j < p.len() {
                    assert(r[i] == p[i] && r[j] == p[j]);
                } else {
                    assert(r[i] == p[i]);
                }
            }
            assert forall|j: int| 0 <= j < r.len() implies {
                let f = first_index(es, (#[trigger] r[j]).0);
                &&& f < n
                &&& r[j] == (es[f].0@, es[f].1@)
            } by {
                if j < p.len() {
                    assert(r[j] == p[j]);
                }
            }
            assert forall|i: int| 0 <= i < n && first_index(es, (#[trigger] es[i]).0@) == i implies r.contains(
                (es[i].0@, es[i].1@),
            ) by {
                if i < n - 1 {
                    assert(p.contains((es[i].0@, es[i].1@)));
                    let j = choose|j: int| 0 <= j < p.len() && p[j] == (es[i].0@, es[i].1@);
                    assert(r[j] == p[j]);
                } else {
                    assert(r[r.len() - 1] == (es[i].0@, es[i].1@));
                }
            }
        } else {
            assert(first_entries(es, n) == p);
        }
    }
}

/// Saving a store and loading the saved text gives back the same
/// settings, for every store whose keys and values have no line breaks or
/// surrounding whitespace, whose keys are not comments, and whose keys
/// hold no `=`.
pub proof fn lemma_saved_config_loads_back(es: Seq<(String, String)>)
    requires
        clean_entries(es),
    ensures
        config_text_map(config_text(es)) == entries_map(es),
{
    let n = es.len() as int;
    let fe = first_entries(es, n);
    let sorted = sort_by(fe, key_le());
    lemma_first_entries_pairs(es, n);
    lemma_sort_by_keeps_pairs(fe, key_le());
    assert(clean_pairs(sorted)) by {
        assert forall|i: int| 0 <= i < sorted.len() implies clean_key((#[trigger] sorted[i]).0) && clean_value(sorted[i].1) by {
            assert(sorted.contains(sorted[i]));
            assert(fe.contains(sorted[i]));
            let j = choose|j: int| 0 <= j < fe.len() && fe[j] == sorted[i];
            let f = first_index(es, fe[j].0);
            assert(fe[j] == (es[f].0@, es[f].1@));
            lemma_first_index(es, fe[j].0);
            assert(clean_key(es[f].0@) && clean_value(es[f].1@));
        }
    }
    lemma_split_rendered(sorted);
    let lines = sorted.map_values(|p: (Seq<char>, Seq<char>)| pair_line(p));
    lemma_apply_saved_lines(sorted);
    lemma_split_lines_nonempty(Seq::<char>::empty());
    assert(lines.push(Seq::<char>::empty()).drop_last() =~= lines);
    lemma_trim_empty();
    assert(apply_lines(lines.push(Seq::<char>::empty())) == apply_lines(lines));
    lemma_pairs_map_distinct(sorted);
    let m = pairs_map(sorted);
    let e = entries_map(es);
    assert forall|k: Seq<char>| #[trigger] m.contains_key(k) <==> e.contains_key(k) by {
        lemma_first_index(es, k);
        if m.contains_key(k) {
            let i = choose|i: int| 0 <= i < sorted.len() && (#[trigger] sorted[i]).0 == k;
            assert(sorted.contains(sorted[i]));
            assert(fe.contains(sorted[i]));
            let j = choose|j: int| 0 <= j < fe.len() && fe[j] == sorted[i];
            assert(fe[j].0 == k);
        }
        if e.contains_key(k) {
            let f = first_index(es, k);
            lemma_first_index(es, es[f].0@);
            assert(fe.contains((es[f].0@, es[f].1@)));
            assert(sorted.contains((es[f].0@, es[f].1@)));
            let i = choose|i: int| 0 <= i < sorted.len() && sorted[i] == (es[f].0@, es[f].1@);
            assert(sorted[i].0 == k);
        }
    }
    assert forall|k: Seq<char>| #[trigger] m.contains_key(k) implies m[k] == e[k] by {
        lemma_first_index(es, k);
        let f = first_index(es, k);
        lemma_first_index(es, es[f].0@);
        assert(fe.contains((es[f].0@, es[f].1@)));
        assert(sorted.contains((es[f].0@, es[f].1@)));
        let i = choose|i: int| 0 <= i < sorted.len() && sorted[i] == (es[f].0@, es[f].1@);
        assert(sorted[i].0 == k);
    }
    assert(m =~= e);
}

} // verus!
