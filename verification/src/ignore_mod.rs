//! Ignore rules in gitignore syntax, gathered from several sources (the
//! built-in defaults, the global file, the per-game file, the file inside
//! the game directory) into one matcher.
//!
//! Glob compilation and matching are done by the `ignore` crate; this
//! module decides which lines become patterns, rejects a source with a bad
//! pattern, and keeps the matcher equal to the patterns of all sources in
//! the order they were added.

use vstd::prelude::*;
use ignore::gitignore::{Gitignore, GitignoreBuilder};
use crate::config::gim_config::split_lines;
use crate::error::GError;
use crate::text::{owned, push_str, texts, trim, trim_seq};

verus! {

#[verifier::external_type_specification]
#[verifier::external_body]
pub struct ExGitignore(Gitignore);

#[verifier::external_type_specification]
#[verifier::external_body]
pub struct ExGitignoreBuilder(GitignoreBuilder);

// ── What the `ignore` crate computes ───────────────────────────────────

/// The pattern lines a builder holds, in the order they were added.
pub uninterp spec fn builder_lines(b: GitignoreBuilder) -> Seq<Seq<char>>;

/// The root directory a builder was made with.
pub uninterp spec fn builder_root(b: GitignoreBuilder) -> Seq<char>;

/// The pattern lines a matcher was built from.
pub uninterp spec fn matcher_lines(g: Gitignore) -> Seq<Seq<char>>;

/// The root directory a matcher was built with.
pub uninterp spec fn matcher_root(g: Gitignore) -> Seq<char>;

/// Whether `GitignoreBuilder::add_line` accepts a pattern line (its glob
/// compiles).
pub uninterp spec fn glob_accepts(line: Seq<char>) -> bool;

/// Whether `Gitignore::matched` reports `Ignore` for `path` on a matcher
/// built under `root` from `lines`.
pub uninterp spec fn ignore_verdict(root: Seq<char>, lines: Seq<Seq<char>>, path: Seq<char>, is_dir: bool) -> bool;

/// `GitignoreBuilder::new(root)`. Claimed: the builder holds no pattern
/// and remembers `root`.
#[verifier::external_body]
fn new_builder(root: &str) -> (b: GitignoreBuilder)
    ensures
        builder_lines(b) == Seq::<Seq<char>>::empty(),
        builder_root(b) == root@,
{
    GitignoreBuilder::new(root)
}

/// `GitignoreBuilder::add_line(None, line)` on a line that is neither
/// blank nor a comment. Claimed: it succeeds exactly when the line's glob
/// compiles (`glob_accepts`), then the builder holds the line as its last
/// pattern; on failure the builder is unchanged and the crate's message
/// comes back.
#[verifier::external_body]
fn add_pattern(b: &mut GitignoreBuilder, line: &str) -> (r: Result<(), String>)
    requires
        is_pattern_line(line@),
    ensures
        r is Ok <==> glob_accepts(line@),
        builder_root(*final(b)) == builder_root(*old(b)),
        r is Ok ==> builder_lines(*final(b)) == builder_lines(*old(b)).push(line@),
        r is Err ==> builder_lines(*final(b)) == builder_lines(*old(b)),
{
    match b.add_line(None, line) {
        Ok(_) => Ok(()),
        Err(e) => Err(e.to_string()),
    }
}

/// `GitignoreBuilder::build`. Claimed: a built matcher holds the builder's
/// patterns under its root; a builder without patterns always builds (the
/// source returns `Gitignore::empty()` then). When the globs do not form a
/// set the crate's message comes back.
#[verifier::external_body]
fn build_matcher(b: &GitignoreBuilder) -> (r: Result<Gitignore, String>)
    ensures
        builder_lines(*b).len() == 0 ==> r is Ok,
        r matches Ok(g) ==> matcher_lines(g) == builder_lines(*b),
        r matches Ok(g) ==> (builder_lines(*b).len() > 0 ==> matcher_root(g) == builder_root(*b)),
{
    match b.build() {
        Ok(g) => Ok(g),
        Err(e) => Err(e.to_string()),
    }
}

/// `Gitignore::matched(path, is_dir).is_ignore()`. Claimed: the answer is
/// `ignore_verdict` of the matcher's root and patterns, and a matcher
/// without patterns ignores nothing (the source returns `Match::None`).
#[verifier::external_body]
fn matcher_ignores(g: &Gitignore, path: &str, is_dir: bool) -> (r: bool)
    ensures
        r == ignore_verdict(matcher_root(*g), matcher_lines(*g), path@, is_dir),
        matcher_lines(*g).len() == 0 ==> !r,
{
    g.matched(std::path::Path::new(path), is_dir).is_ignore()
}

// ── Which lines are patterns ───────────────────────────────────────────

/// A line is a pattern unless it is blank or, once trimmed, starts with `#`.
pub open spec fn is_pattern_line(l: Seq<char>) -> bool {
    trim_seq(l).len() > 0 && trim_seq(l)[0] != '#'
}

/// The pattern lines of `ls`, in order, as written.
pub open spec fn kept_patterns(ls: Seq<Seq<char>>) -> Seq<Seq<char>>
    decreases ls.len(),
{
    if ls.len() == 0 {
        Seq::empty()
    } else {
        let k = kept_patterns(ls.drop_last());
        if is_pattern_line(ls.last()) { k.push(ls.last()) } else { k }
    }
}

/// The index of the first pattern line whose glob does not compile.
pub open spec fn first_rejected(ls: Seq<Seq<char>>) -> Option<int>
    decreases ls.len(),
{
    if ls.len() == 0 {
        None
    } else {
        match first_rejected(ls.drop_last()) {
            Some(i) => Some(i),
            None => if is_pattern_line(ls.last()) && !glob_accepts(ls.last()) {
                Some(ls.len() - 1)
            } else {
                None
            },
        }
    }
}

/// Every line is a pattern that compiles.
pub open spec fn usable(ps: Seq<Seq<char>>) -> bool {
    forall|i: int| 0 <= i < ps.len() ==> is_pattern_line(#[trigger] ps[i]) && glob_accepts(ps[i])
}

/// One place ignore patterns come from.
#[derive(Debug, Clone)]
pub struct IgnoreSource {
    pub label: String,
    pub patterns: Vec<String>,
}

/// A source as plain values: its label and its patterns.
pub open spec fn source_view(s: IgnoreSource) -> (Seq<char>, Seq<Seq<char>>) {
    (s.label@, texts(s.patterns@))
}

pub open spec fn sources_view(ss: Seq<IgnoreSource>) -> Seq<(Seq<char>, Seq<Seq<char>>)> {
    ss.map_values(|s: IgnoreSource| source_view(s))
}

/// The patterns of all sources, source after source.
pub open spec fn all_patterns(ss: Seq<IgnoreSource>) -> Seq<Seq<char>>
    decreases ss.len(),
{
    if ss.len() == 0 {
        Seq::empty()
    } else {
        all_patterns(ss.drop_last()) + texts(ss.last().patterns@)
    }
}

proof fn lemma_all_patterns_push(ss: Seq<IgnoreSource>, s: IgnoreSource)
    ensures
        all_patterns(ss.push(s)) == all_patterns(ss) + texts(s.patterns@),
{
    assert(ss.push(s).drop_last() =~= ss);
}

proof fn lemma_usable_concat(a: Seq<Seq<char>>, b: Seq<Seq<char>>)
    requires
        usable(a),
        usable(b),
    ensures
        usable(a + b),
{
    assert forall|i: int| 0 <= i < (a + b).len() implies is_pattern_line(#[trigger] (a + b)[i]) && glob_accepts((a + b)[i]) by {
        if i < a.len() {
            assert((a + b)[i] == a[i]);
        } else {
            assert((a + b)[i] == b[i - a.len()]);
        }
    }
}

/// The merged ignore rules of several sources.
pub struct IgnoreSet {
    matcher: Gitignore,
    pub sources: Vec<IgnoreSource>,
}

impl IgnoreSet {
    /// The root the matcher resolves paths against.
    pub closed spec fn root(&self) -> Seq<char> {
        matcher_root(self.matcher)
    }

    /// The sources added so far.
    pub closed spec fn source_list(&self) -> Seq<IgnoreSource> {
        self.sources@
    }

    /// The patterns the matcher was built from.
    pub closed spec fn patterns(&self) -> Seq<Seq<char>> {
        matcher_lines(self.matcher)
    }

    /// The matcher holds exactly the patterns of all sources, in order,
    /// and each of them compiles.
    pub closed spec fn wf(&self) -> bool {
        &&& self.patterns() == all_patterns(self.sources@)
        &&& usable(self.patterns())
    }

    /// A set without sources; it ignores nothing.
    pub fn empty() -> (r: Result<IgnoreSet, GError>)
        ensures
            r is Ok,
            r matches Ok(s) ==> s.wf() && s.source_list().len() == 0 && s.patterns().len() == 0,
    {
        let b = new_builder("");
        match build_matcher(&b) {
            Ok(g) => {
                let s = IgnoreSet { matcher: g, sources: Vec::new() };
                proof {
                    assert(all_patterns(s.sources@) =~= Seq::<Seq<char>>::empty());
                }
                Ok(s)
            },
            Err(e) => Err(GError::Ignore(e)),
        }
    }

    /// Adds one source. Blank lines and comments are dropped; the first
    /// pattern whose glob does not compile rejects the whole source with
    /// `GError::IgnorePattern` naming the source and the line, and the set
    /// is left as it was. Otherwise the matcher is rebuilt under `root`
    /// from the patterns of every source so far followed by this one's.
    pub fn add_lines(&mut self, root: &str, label: &str, lines: &[String]) -> (r: Result<(), GError>)
        requires
            old(self).wf(),
        ensures
            final(self).wf(),
            match first_rejected(texts(lines@)) {
                Some(i) => {
                    &&& r matches Err(GError::IgnorePattern { file, message })
                        && file@ == label@
                        && ("line \""@ + lines@[i]@ + "\": "@).is_prefix_of(message@)
                    &&& *final(self) == *old(self)
                },
                None => match r {
                    Ok(()) => {
                        &&& sources_view(final(self).source_list()) == sources_view(old(self).source_list()).push(
                            (label@, kept_patterns(texts(lines@))),
                        )
                        &&& final(self).patterns().len() > 0 ==> final(self).root() == root@
                    },
                    Err(e) => e is Ignore && *final(self) == *old(self),
                },
            },
    {
        let ghost ls = texts(lines@);
        let mut builder = new_builder(root);
        let mut kept: Vec<String> = Vec::new();
        let mut i: usize = 0;
        while i < lines.len()
            invariant
                ls == texts(lines@),
                i <= lines@.len(),
                self.wf(),
                *self == *old(self),
                first_rejected(ls.subrange(0, i as int)) is None,
                texts(kept@) == kept_patterns(ls.subrange(0, i as int)),
                builder_lines(builder) == texts(kept@),
                builder_root(builder) == root@,
                usable(texts(kept@)),
            decreases lines.len() - i,
        {
            let ghost pre = ls.subrange(0, i as int);
            let ghost pre1 = ls.subrange(0, i + 1);
            proof {
                assert(pre1.drop_last() =~= pre);
                assert(pre1.last() == lines@[i as int]@);
            }
            let raw = &lines[i];
            let t = trim(raw.as_str());
            if t.unicode_len() == 0 || t.get_char(0) == '#' {
                proof {
                    assert(!is_pattern_line(pre1.last()));
                }
            } else {
                match add_pattern(&mut builder, raw.as_str()) {
                    Err(e) => {
                        let mut message = owned("line \"");
                        push_str(&mut message, raw.as_str());
                        push_str(&mut message, "\": ");
                        let ghost head = message@;
                        push_str(&mut message, e.as_str());
                        proof {
                            assert(first_rejected(pre1) == Some(i as int));
                            lemma_first_rejected_prefix(ls, i as int);
                            assert(head.is_prefix_of(message@)) by {
                                assert(message@.subrange(0, head.len() as int) =~= head);
                            }
                        }
                        return Err(GError::IgnorePattern { file: owned(label), message });
                    },
                    Ok(()) => {
                        let ghost old_kept = texts(kept@);
                        kept.push(owned(raw.as_str()));
                        proof {
                            assert(texts(kept@) =~= old_kept.push(raw@));
                            assert forall|j: int| 0 <= j < texts(kept@).len() implies is_pattern_line(
                                #[trigger] texts(kept@)[j],
                            ) && glob_accepts(texts(kept@)[j]) by {
                                if j < old_kept.len() {
                                    assert(texts(kept@)[j] == old_kept[j]);
                                }
                            }
                        }
                    },
                }
            }
            i = i + 1;
        }
        proof {
            assert(ls.subrange(0, lines@.len() as int) =~= ls);
        }
        let built = if self.sources.len() == 0 {
            proof {
                assert(all_patterns(self.sources@) =~= Seq::<Seq<char>>::empty());
            }
            build_matcher(&builder)
        } else {
            let mut b = new_builder(root);
            let mut j: usize = 0;
            while j < self.sources.len()
                invariant
                    0 <= j <= self.sources@.len(),
                    self.wf(),
                    builder_lines(b) == all_patterns(self.sources@.subrange(0, j as int)),
                    builder_root(b) == root@,
                decreases self.sources.len() - j,
            {
                let ghost before = builder_lines(b);
                let src = &self.sources[j];
                proof {
                    let sub1 = self.sources@.subrange(0, j + 1);
                    assert(sub1.drop_last() =~= self.sources@.subrange(0, j as int));
                    lemma_all_patterns_prefix(self.sources@, j as int);
                }
                let mut k: usize = 0;
                while k < src.patterns.len()
                    invariant
                        0 <= k <= src.patterns@.len(),
                        src == self.sources@[j as int],
                        j < self.sources@.len(),
                        usable(all_patterns(self.sources@.subrange(0, j + 1))),
                        all_patterns(self.sources@.subrange(0, j + 1)) == before + texts(src.patterns@),
                        builder_lines(b) == before + texts(src.patterns@).subrange(0, k as int),
                        builder_root(b) == root@,
                    decreases src.patterns.len() - k,
                {
                    let p = &src.patterns[k];
                    proof {
                        let all = all_patterns(self.sources@.subrange(0, j + 1));
                        assert(all[before.len() + k] == p@);
                    }
                    let _ = add_pattern(&mut b, p.as_str());
                    proof {
                        assert(texts(src.patterns@).subrange(0, k + 1) =~= texts(src.patterns@).subrange(
                            0,
                            k as int,
                        ).push(p@));
                    }
                    k = k + 1;
                }
                proof {
                    assert(texts(src.patterns@).subrange(0, src.patterns@.len() as int) =~= texts(src.patterns@));
                }
                j = j + 1;
            }
            proof {
                assert(self.sources@.subrange(0, self.sources@.len() as int) =~= self.sources@);
            }
            let ghost base = builder_lines(b);
            let mut k: usize = 0;
            while k < kept.len()
                invariant
                    0 <= k <= kept@.len(),
                    usable(texts(kept@)),
                    builder_lines(b) == base + texts(kept@).subrange(0, k as int),
                    builder_root(b) == root@,
                decreases kept.len() - k,
            {
                let p = &kept[k];
                proof {
                    assert(texts(kept@)[k as int] == p@);
                }
                let _ = add_pattern(&mut b, p.as_str());
                proof {
                    assert(texts(kept@).subrange(0, k + 1) =~= texts(kept@).subrange(0, k as int).push(p@));
                }
                k = k + 1;
            }
            proof {
                assert(texts(kept@).subrange(0, kept@.len() as int) =~= texts(kept@));
            }
            build_matcher(&b)
        };
        match built {
            Ok(g) => {
                let ghost old_sources = self.sources@;
                let src = IgnoreSource { label: owned(label), patterns: kept };
                proof {
                    lemma_all_patterns_push(old_sources, src);
                    lemma_usable_concat(all_patterns(old_sources), texts(src.patterns@));
                }
                self.matcher = g;
                self.sources.push(src);
                proof {
                    assert(sources_view(self.sources@) =~= sources_view(old_sources).push(
                        (label@, kept_patterns(ls)),
                    ));
                }
                Ok(())
            },
            Err(e) => Err(GError::Ignore(e)),
        }
    }

    /// Adds the lines of a file's text as one source; a missing file
    /// (`None`) adds nothing.
    pub fn add_file_text(&mut self, root: &str, label: &str, text: Option<&str>) -> (r: Result<(), GError>)
        requires
            old(self).wf(),
        ensures
            final(self).wf(),
            text is None ==> r is Ok && *final(self) == *old(self),
            text matches Some(t) ==> match first_rejected(str_lines(t@)) {
                Some(i) => {
                    &&& r matches Err(GError::IgnorePattern { file, message }) && file@ == label@
                    &&& *final(self) == *old(self)
                },
                None => match r {
                    Ok(()) => {
                        &&& sources_view(final(self).source_list()) == sources_view(old(self).source_list()).push(
                            (label@, kept_patterns(str_lines(t@))),
                        )
                        &&& final(self).patterns().len() > 0 ==> final(self).root() == root@
                    },
                    Err(e) => e is Ignore && *final(self) == *old(self),
                },
            },
    {
        match text {
            None => Ok(()),
            Some(t) => {
                let lines = text_lines(t);
                self.add_lines(root, label, lines.as_slice())
            },
        }
    }

    /// Whether a path relative to the game directory is ignored.
    pub fn is_ignored(&self, rp: &str, is_dir: bool) -> (r: bool)
        ensures
            r == ignore_verdict(self.root(), self.patterns(), rp@, is_dir),
            self.patterns().len() == 0 ==> !r,
    {
        matcher_ignores(&self.matcher, rp, is_dir)
    }
}

impl Clone for IgnoreSet {
    /// A fresh set with the same sources re-added, resolved against `/`.
    fn clone(&self) -> (r: Self)
        ensures
            r.wf(),
    {
        let mut new = IgnoreSet::empty().unwrap();
        let mut i: usize = 0;
        while i < self.sources.len()
            invariant
                new.wf(),
            decreases self.sources.len() - i,
        {
            let src = &self.sources[i];
            let _ = new.add_lines("/", src.label.as_str(), src.patterns.as_slice());
            i = i + 1;
        }
        new
    }
}

proof fn lemma_first_rejected_prefix(ls: Seq<Seq<char>>, i: int)
    requires
        0 <= i < ls.len(),
        first_rejected(ls.subrange(0, i + 1)) == Some(i),
    ensures
        first_rejected(ls) == Some(i),
    decreases ls.len(),
{
    if ls.len() > i + 1 {
        assert(ls.drop_last().subrange(0, i + 1) =~= ls.subrange(0, i + 1));
        lemma_first_rejected_prefix(ls.drop_last(), i);
    } else {
        assert(ls.subrange(0, i + 1) =~= ls);
    }
}

proof fn lemma_all_patterns_prefix(ss: Seq<IgnoreSource>, j: int)
    requires
        0 <= j < ss.len(),
        usable(all_patterns(ss)),
    ensures
        usable(all_patterns(ss.subrange(0, j + 1))),
        all_patterns(ss.subrange(0, j + 1)) == all_patterns(ss.subrange(0, j)) + texts(ss[j].patterns@),
    decreases ss.len(),
{
    assert(ss.subrange(0, j + 1).drop_last() =~= ss.subrange(0, j));
    if ss.len() > j + 1 {
        assert(ss.drop_last().subrange(0, j + 1) =~= ss.subrange(0, j + 1));
        assert(ss.drop_last().subrange(0, j) =~= ss.subrange(0, j));
        assert(usable(all_patterns(ss.drop_last()))) by {
            let a = all_patterns(ss.drop_last());
            let b = texts(ss.last().patterns@);
            assert forall|i: int| 0 <= i < a.len() implies is_pattern_line(#[trigger] a[i]) && glob_accepts(a[i]) by {
                assert((a + b)[i] == a[i]);
            }
        }
        lemma_all_patterns_prefix(ss.drop_last(), j);
    } else {
        assert(ss.subrange(0, j + 1) =~= ss);
    }
}

// ── Lines of a text ────────────────────────────────────────────────────

/// One trailing carriage return removed.
pub open spec fn strip_cr(l: Seq<char>) -> Seq<char> {
    if l.len() > 0 && l.last() == '\r' { l.drop_last() } else { l }
}

/// The lines `str::lines` gives: split at `'\n'`, a `'\r'` before a
/// `'\n'` dropped, and no empty last line after a final `'\n'`.
pub open spec fn str_lines(s: Seq<char>) -> Seq<Seq<char>> {
    let ps = split_lines(s);
    let ended = ps.drop_last().map_values(|l: Seq<char>| strip_cr(l));
    if ps.last().len() == 0 { ended } else { ended.push(ps.last()) }
}

proof fn lemma_split_lines_len(s: Seq<char>)
    ensures
        split_lines(s).len() >= 1,
    decreases s.len(),
{
    if s.len() > 0 {
        lemma_split_lines_len(s.drop_last());
    }
}

/// The lines of a text, as `str::lines` gives them.
pub fn text_lines(s: &str) -> (r: Vec<String>)
    ensures
        texts(r@) == str_lines(s@),
{
    let n = s.unicode_len();
    let mut out: Vec<String> = Vec::new();
    let mut cur = String::new();
    let mut i: usize = 0;
    proof {
        assert(s@.subrange(0, 0) =~= Seq::<char>::empty());
    }
    while i < n
        invariant
            n == s@.len(),
            i <= n,
            split_lines(s@.subrange(0, i as int)).len() >= 1,
            texts(out@) == split_lines(s@.subrange(0, i as int)).drop_last().map_values(|l: Seq<char>| strip_cr(l)),
            cur@ == split_lines(s@.subrange(0, i as int)).last(),
        decreases n - i,
    {
        let ghost pre = s@.subrange(0, i as int);
        let ghost ps = split_lines(pre);
        let c = s.get_char(i);
        proof {
            assert(s@.subrange(0, i + 1).drop_last() =~= pre);
            assert(s@.subrange(0, i + 1).last() == c);
            lemma_split_lines_len(pre);
        }
        if c == '\n' {
            let k = cur.unicode_len();
            let line = if k > 0 && cur.as_str().get_char(k - 1) == '\r' {
                owned(cur.as_str().substring_char(0, k - 1))
            } else {
                owned(cur.as_str())
            };
            proof {
                assert(line@ == strip_cr(cur@)) by {
                    if k > 0 && cur@.last() == '\r' {
                        assert(cur@.subrange(0, k - 1) =~= cur@.drop_last());
                    }
                }
            }
            let ghost old_out = texts(out@);
            out.push(line);
            cur = String::new();
            proof {
                let ps2 = split_lines(s@.subrange(0, i + 1));
                assert(ps2 == ps.push(Seq::<char>::empty()));
                assert(ps2.drop_last() =~= ps);
                assert(ps =~= ps.drop_last().push(ps.last()));
                assert(texts(out@) =~= old_out.push(strip_cr(ps.last())));
                assert(ps.map_values(|l: Seq<char>| strip_cr(l)) =~= ps.drop_last().map_values(
                    |l: Seq<char>| strip_cr(l),
                ).push(strip_cr(ps.last())));
                assert(cur@ =~= ps2.last());
            }
        } else {
            push_char_to(&mut cur, c);
            proof {
                let ps2 = split_lines(s@.subrange(0, i + 1));
                assert(ps2 == ps.update(ps.len() - 1, ps.last().push(c)));
                assert(ps2.drop_last() =~= ps.drop_last());
            }
        }
        i = i + 1;
    }
    proof {
        assert(s@.subrange(0, n as int) =~= s@);
    }
    if cur.unicode_len() > 0 {
        let ghost old_out = texts(out@);
        out.push(cur);
        proof {
            assert(texts(out@) =~= old_out.push(split_lines(s@).last()));
        }
    }
    out
}

fn push_char_to(s: &mut String, c: char)
    ensures
        final(s)@ == old(s)@.push(c),
{
    crate::text::push_char(s, c);
}

// ── The rules of a game ────────────────────────────────────────────────

/// The patterns every game starts with.
pub fn default_patterns() -> (r: Vec<String>)
    ensures
        texts(r@) == default_pattern_seq(),
{
    let mut v: Vec<String> = Vec::new();
    v.push(owned("*.tmp"));
    v.push(owned("*.temp"));
    v.push(owned("*.bak"));
    v.push(owned("*.swp"));
    v.push(owned("Thumbs.db"));
    v.push(owned(".DS_Store"));
    v.push(owned("desktop.ini"));
    proof {
        assert(texts(v@) =~= default_pattern_seq());
    }
    v
}

pub open spec fn default_pattern_seq() -> Seq<Seq<char>> {
    seq!["*.tmp"@, "*.temp"@, "*.bak"@, "*.swp"@, "Thumbs.db"@, ".DS_Store"@, "desktop.ini"@]
}

/// The label of a game's own ignore file.
pub open spec fn per_game_label(alias: Seq<char>) -> Seq<char> {
    "# Per-game (data/"@ + alias + "/.gignore)"@
}

/// The source a file's text gives, if the file exists.
pub open spec fn file_source(label: Seq<char>, text: Option<Seq<char>>) -> Seq<(Seq<char>, Seq<Seq<char>>)> {
    match text {
        Some(t) => seq![(label, kept_patterns(str_lines(t)))],
        None => Seq::empty(),
    }
}

pub open spec fn opt_str(o: Option<&str>) -> Option<Seq<char>> {
    match o {
        Some(s) => Some(s@),
        None => None,
    }
}

/// The sources of a game, in order: the defaults, the global file, the
/// game's own file and the file inside the game directory.
pub open spec fn game_sources(alias: Seq<char>, global: Option<Seq<char>>, per_game: Option<Seq<char>>, in_game: Option<Seq<char>>) -> Seq<(Seq<char>, Seq<Seq<char>>)> {
    seq![("# Global defaults"@, kept_patterns(default_pattern_seq()))]
        + file_source("# Global gignore"@, global)
        + file_source(per_game_label(alias), per_game)
        + file_source("# In-game"@, in_game)
}

/// A text whose lines hold a pattern that does not compile.
pub open spec fn text_rejected(text: Option<Seq<char>>) -> bool {
    match text {
        Some(t) => first_rejected(str_lines(t)) is Some,
        None => false,
    }
}

/// The patterns of a list of source views, source after source.
pub open spec fn flat_patterns(vs: Seq<(Seq<char>, Seq<Seq<char>>)>) -> Seq<Seq<char>>
    decreases vs.len(),
{
    if vs.len() == 0 { Seq::empty() } else { flat_patterns(vs.drop_last()) + vs.last().1 }
}

proof fn lemma_all_patterns_view(ss: Seq<IgnoreSource>)
    ensures
        all_patterns(ss) == flat_patterns(sources_view(ss)),
    decreases ss.len(),
{
    if ss.len() > 0 {
        lemma_all_patterns_view(ss.drop_last());
        assert(sources_view(ss).drop_last() =~= sources_view(ss.drop_last()));
    }
}

proof fn lemma_flat_concat(x: Seq<(Seq<char>, Seq<Seq<char>>)>, y: Seq<(Seq<char>, Seq<Seq<char>>)>)
    ensures
        flat_patterns(x + y) == flat_patterns(x) + flat_patterns(y),
    decreases y.len(),
{
    if y.len() == 0 {
        assert(x + y =~= x);
        assert(flat_patterns(x) + flat_patterns(y) =~= flat_patterns(x));
    } else {
        lemma_flat_concat(x, y.drop_last());
        assert((x + y).drop_last() =~= x + y.drop_last());
        assert(flat_patterns(x + y.drop_last()) + y.last().1 =~= flat_patterns(x) + (flat_patterns(y.drop_last()) + y.last().1));
    }
}

proof fn lemma_flat_file_source(label: Seq<char>, text: Option<Seq<char>>)
    ensures
        flat_patterns(file_source(label, text)) == (match text {
            Some(t) => kept_patterns(str_lines(t)),
            None => Seq::<Seq<char>>::empty(),
        }),
{
    match text {
        Some(t) => {
            let v = file_source(label, text);
            assert(v.drop_last() =~= Seq::<(Seq<char>, Seq<Seq<char>>)>::empty());
            assert(flat_patterns(v.drop_last()) == Seq::<Seq<char>>::empty());
            assert(flat_patterns(v) == flat_patterns(v.drop_last()) + v.last().1);
            assert(Seq::<Seq<char>>::empty() + kept_patterns(str_lines(t)) =~= kept_patterns(str_lines(t)));
        },
        None => {},
    }
}

/// The ignore rules of a game, from the texts of its three ignore files
/// (`None` for a file that does not exist), rooted at the game directory.
pub fn build_for_game(
    alias: &str,
    game_dir: &str,
    global: Option<&str>,
    per_game: Option<&str>,
    in_game: Option<&str>,
) -> (r: Result<IgnoreSet, GError>)
    ensures
        r matches Ok(s) ==> s.wf() && sources_view(s.source_list()) == game_sources(
            alias@,
            opt_str(global),
            opt_str(per_game),
            opt_str(in_game),
        ) && (s.patterns().len() > 0 ==> s.root() == game_dir@),
        r matches Err(GError::IgnorePattern { .. }) ==> first_rejected(default_pattern_seq()) is Some
            || text_rejected(opt_str(global)) || text_rejected(opt_str(per_game)) || text_rejected(
            opt_str(in_game),
        ),
        r is Ok || r matches Err(GError::IgnorePattern { .. }) || r matches Err(GError::Ignore(_)),
        r matches Ok(s) ==> s.patterns() == kept_patterns(default_pattern_seq()) + (match global {
            Some(t) => kept_patterns(str_lines(t@)),
            None => Seq::<Seq<char>>::empty(),
        }) + (match per_game {
            Some(t) => kept_patterns(str_lines(t@)),
            None => Seq::<Seq<char>>::empty(),
        }) + (match in_game {
            Some(t) => kept_patterns(str_lines(t@)),
            None => Seq::<Seq<char>>::empty(),
        }),
        r matches Ok(s) ==> (in_game matches Some(t) ==> s.source_list().len() > 0 && s.source_list().last().label@
            == "# In-game"@ && texts(s.source_list().last().patterns@) == kept_patterns(str_lines(t@))),
{
    let mut s = match IgnoreSet::empty() {
        Ok(s) => s,
        Err(e) => return Err(e),
    };
    let d = default_patterns();
    match s.add_lines(game_dir, "# Global defaults", d.as_slice()) {
        Ok(()) => {},
        Err(e) => return Err(e),
    }
    let ghost v1 = sources_view(s.sources@);
    proof {
        assert(v1 =~= seq![("# Global defaults"@, kept_patterns(default_pattern_seq()))]);
    }
    match s.add_file_text(game_dir, "# Global gignore", global) {
        Ok(()) => {},
        Err(e) => return Err(e),
    }
    let ghost v2 = sources_view(s.sources@);
    proof {
        assert(v2 =~= v1 + file_source("# Global gignore"@, opt_str(global)));
    }
    let mut label = owned("# Per-game (data/");
    push_str(&mut label, alias);
    push_str(&mut label, "/.gignore)");
    match s.add_file_text(game_dir, label.as_str(), per_game) {
        Ok(()) => {},
        Err(e) => return Err(e),
    }
    let ghost v3 = sources_view(s.sources@);
    proof {
        assert(v3 =~= v2 + file_source(per_game_label(alias@), opt_str(per_game)));
    }
    match s.add_file_text(game_dir, "# In-game", in_game) {
        Ok(()) => {},
        Err(e) => return Err(e),
    }
    proof {
        assert(sources_view(s.sources@) =~= v3 + file_source("# In-game"@, opt_str(in_game)));
        assert(sources_view(s.sources@) =~= game_sources(alias@, opt_str(global), opt_str(per_game), opt_str(in_game)));
        let d0 = seq![("# Global defaults"@, kept_patterns(default_pattern_seq()))];
        let f1 = file_source("# Global gignore"@, opt_str(global));
        let f2 = file_source(per_game_label(alias@), opt_str(per_game));
        let f3 = file_source("# In-game"@, opt_str(in_game));
        lemma_all_patterns_view(s.sources@);
        lemma_flat_concat(d0 + f1 + f2, f3);
        lemma_flat_concat(d0 + f1, f2);
        lemma_flat_concat(d0, f1);
        lemma_flat_file_source("# Global gignore"@, opt_str(global));
        lemma_flat_file_source(per_game_label(alias@), opt_str(per_game));
        lemma_flat_file_source("# In-game"@, opt_str(in_game));
        assert(d0.drop_last() =~= Seq::<(Seq<char>, Seq<Seq<char>>)>::empty());
        assert(flat_patterns(d0.drop_last()) == Seq::<Seq<char>>::empty());
        assert(flat_patterns(d0) == flat_patterns(d0.drop_last()) + d0.last().1);
        assert(flat_patterns(d0) =~= kept_patterns(default_pattern_seq()));
        if in_game is Some {
            let n = s.sources@.len();
            assert(sources_view(s.sources@)[n - 1] == source_view(s.sources@[n - 1]));
        }
    }
    Ok(s)
}

} // verus!
