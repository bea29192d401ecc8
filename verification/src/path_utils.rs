//! Path text helpers: joining path components the way `Path::join` does
//! on this platform, object-store paths, and turning normalized relative
//! paths back into full paths.

use vstd::prelude::*;
use crate::error::GError;
use crate::text::{owned, push_char, push_str, str_eq};

verus! {

/// `base.join(comp)` with `/` as the separator: an absolute component
/// replaces the base; otherwise a separator is inserted unless the base is
/// empty or already ends with one.
pub open spec fn path_join(base: Seq<char>, comp: Seq<char>) -> Seq<char> {
    if comp.len() > 0 && comp[0] == '/' {
        comp
    } else if base.len() == 0 {
        comp
    } else if base.last() == '/' {
        base + comp
    } else {
        base + "/"@ + comp
    }
}

/// Joins `comp` onto `base` (see [`path_join`]).
pub fn join(base: &str, comp: &str) -> (r: String)
    ensures
        r@ == path_join(base@, comp@),
{
    let cl = comp.unicode_len();
    if cl > 0 && comp.get_char(0) == '/' {
        return owned(comp);
    }
    let bl = base.unicode_len();
    if bl == 0 {
        return owned(comp);
    }
    let mut out = owned(base);
    if base.get_char(bl - 1) != '/' {
        push_char(&mut out, '/');
        proof {
            reveal_strlit("/");
        }
        assert(out@ == base@ + "/"@);
    }
    push_str(&mut out, comp);
    out
}

/// Joins the components of `parts` onto `base`, one after the other.
pub open spec fn join_all(base: Seq<char>, parts: Seq<Seq<char>>) -> Seq<char>
    decreases parts.len(),
{
    if parts.len() == 0 {
        base
    } else {
        join_all(path_join(base, parts[0]), parts.drop_first())
    }
}

/// Pushes each `/`-separated part of `rest` onto `p`; `cur` is the part
/// read so far.
pub open spec fn push_parts(p: Seq<char>, cur: Seq<char>, rest: Seq<char>) -> Seq<char>
    decreases rest.len(),
{
    if rest.len() == 0 {
        path_join(p, cur)
    } else if rest[0] == '/' {
        push_parts(path_join(p, cur), Seq::empty(), rest.drop_first())
    } else {
        push_parts(p, cur.push(rest[0]), rest.drop_first())
    }
}

/// Turns a normalized `/`-separated relative path back into a full path
/// under `game_root` (each part is pushed in turn, empty parts included).
pub fn denormalize(game_root: &str, normalized: &str) -> (r: String)
    ensures
        r@ == push_parts(game_root@, Seq::empty(), normalized@),
{
    let n = normalized.unicode_len();
    let mut p = owned(game_root);
    let mut cur = String::new();
    let mut i: usize = 0;
    assert(normalized@.subrange(0, n as int) =~= normalized@);
    while i < n
        invariant
            n == normalized@.len(),
            i <= n,
            push_parts(p@, cur@, normalized@.subrange(i as int, n as int))
                == push_parts(game_root@, Seq::empty(), normalized@),
        decreases n - i,
    {
        let c = normalized.get_char(i);
        proof {
            let rest = normalized@.subrange(i as int, n as int);
            assert(rest[0] == c);
            assert(rest.drop_first() =~= normalized@.subrange(i + 1, n as int));
        }
        if c == '/' {
            p = join(p.as_str(), cur.as_str());
            cur = String::new();
        } else {
            push_char(&mut cur, c);
        }
        i = i + 1;
    }
    proof {
        assert(normalized@.subrange(n as int, n as int) =~= Seq::<char>::empty());
    }
    join(p.as_str(), cur.as_str())
}

/// Bytes of `c` in UTF-8.
pub open spec fn utf8_len(c: char) -> nat {
    let v = c as u32;
    if v < 0x80 { 1 } else if v < 0x800 { 2 } else if v < 0x10000 { 3 } else { 4 }
}

/// The text of `hash` has a character boundary at byte 2.
pub open spec fn splits_at_byte_two(hash: Seq<char>) -> bool {
    ||| (hash.len() >= 1 && utf8_len(hash[0]) == 2)
    ||| (hash.len() >= 2 && utf8_len(hash[0]) == 1 && utf8_len(hash[1]) == 1)
}

/// The first two bytes of `hash`, as characters.
pub open spec fn first_two_bytes(hash: Seq<char>) -> Seq<char> {
    if utf8_len(hash[0]) == 2 { hash.subrange(0, 1) } else { hash.subrange(0, 2) }
}

/// Path of an object in the content store:
/// `objects/<first two bytes of the hash>/<hash>`.
pub fn object_path(objects_dir: &str, hash: &str) -> (r: String)
    requires
        splits_at_byte_two(hash@),
    ensures
        r@ == path_join(path_join(objects_dir@, first_two_bytes(hash@)), hash@),
{
    let mut prefix = String::new();
    let c0 = hash.get_char(0);
    push_char(&mut prefix, c0);
    if (c0 as u32) < 0x80 || (c0 as u32) >= 0x800 {
        push_char(&mut prefix, hash.get_char(1));
        assert(prefix@ =~= hash@.subrange(0, 2));
    } else {
        assert(prefix@ =~= hash@.subrange(0, 1));
    }
    let d = join(objects_dir, prefix.as_str());
    join(d.as_str(), hash)
}

/// `s` holds no `/`.
pub open spec fn no_slash(s: Seq<char>) -> bool {
    forall|i: int| 0 <= i < s.len() ==> s[i] != '/'
}

/// Two different hashes (digests hold no `/`) are stored at two different
/// paths: an object path ends with `/` and then the whole hash.
pub proof fn lemma_object_paths_distinct(objects_dir: Seq<char>, h1: Seq<char>, h2: Seq<char>)
    requires
        splits_at_byte_two(h1),
        splits_at_byte_two(h2),
        no_slash(h1),
        no_slash(h2),
        h1 != h2,
    ensures
        path_join(path_join(objects_dir, first_two_bytes(h1)), h1) != path_join(
            path_join(objects_dir, first_two_bytes(h2)),
            h2,
        ),
{
    reveal_strlit("/");
    let x1 = path_join(objects_dir, first_two_bytes(h1));
    let x2 = path_join(objects_dir, first_two_bytes(h2));
    lemma_join_ends_with(objects_dir, first_two_bytes(h1));
    lemma_join_ends_with(objects_dir, first_two_bytes(h2));
    let r1 = path_join(x1, h1);
    let r2 = path_join(x2, h2);
    assert(r1 == x1 + "/"@ + h1);
    assert(r2 == x2 + "/"@ + h2);
    if r1 == r2 {
        if h1.len() < h2.len() {
            let k = r1.len() - h1.len() - 1;
            assert(r1[k] == '/');
            assert(r2[k] == h2[h2.len() - h1.len() - 1]);
        } else if h2.len() < h1.len() {
            let k = r2.len() - h2.len() - 1;
            assert(r2[k] == '/');
            assert(r1[k] == h1[h1.len() - h2.len() - 1]);
        } else {
            assert forall|i: int| 0 <= i < h1.len() implies h1[i] == h2[i] by {
                assert(r1[x1.len() + 1 + i] == h1[i]);
                assert(r2[x2.len() + 1 + i] == h2[i]);
            }
            assert(h1 =~= h2);
        }
    }
}

/// Joining a component without `/` onto a directory gives a path that is
/// not empty and does not end with `/`.
proof fn lemma_join_ends_with(base: Seq<char>, comp: Seq<char>)
    requires
        comp.len() > 0,
        no_slash(comp),
    ensures
        path_join(base, comp).len() > 0,
        path_join(base, comp).last() != '/',
{
    reveal_strlit("/");
    assert(path_join(base, comp).last() == comp.last());
}

/// A relative path with forward slashes. Paths on this platform already
/// use `/`, so the text is returned unchanged.
pub fn to_forward_slash(rel: &str) -> (r: String)
    ensures
        r@ == rel@,
{
    owned(rel)
}

// ── Components ───────────────────────────────────────────────────────

/// `s` split at every `c` (empty pieces included).
pub open spec fn split_on(s: Seq<char>, c: char) -> Seq<Seq<char>>
    decreases s.len(),
{
    if s.len() == 0 {
        seq![Seq::<char>::empty()]
    } else {
        let ls = split_on(s.drop_last(), c);
        if s.last() == c {
            ls.push(Seq::empty())
        } else {
            ls.update(ls.len() - 1, ls.last().push(s.last()))
        }
    }
}

/// The pieces that name something: neither empty nor `.`.
pub open spec fn kept_segments(segs: Seq<Seq<char>>) -> Seq<Seq<char>>
    decreases segs.len(),
{
    if segs.len() == 0 {
        Seq::empty()
    } else {
        let p = kept_segments(segs.drop_last());
        if segs.last().len() > 0 && segs.last() != seq!['.'] {
            p.push(segs.last())
        } else {
            p
        }
    }
}

/// The text is `.` or starts with `./`.
pub open spec fn starts_with_cur_dir(p: Seq<char>) -> bool {
    p.len() >= 1 && p[0] == '.' && (p.len() == 1 || p[1] == '/')
}

/// `Path::components` on this platform, each as text: a leading `/` is
/// the root `"/"`, a leading `.` component is kept as `"."`, other `.`
/// and empty pieces are dropped, and `..` stays as it is.
pub open spec fn path_components(p: Seq<char>) -> Seq<Seq<char>> {
    let kept = kept_segments(split_on(p, '/'));
    if p.len() > 0 && p[0] == '/' {
        seq![seq!['/']] + kept
    } else if starts_with_cur_dir(p) {
        seq![seq!['.']] + kept
    } else {
        kept
    }
}

proof fn lemma_split_on_nonempty(s: Seq<char>, c: char)
    ensures
        split_on(s, c).len() >= 1,
    decreases s.len(),
{
    if s.len() > 0 {
        lemma_split_on_nonempty(s.drop_last(), c);
    }
}

fn is_dot(s: &String) -> (r: bool)
    ensures
        r == (s@ == seq!['.']),
{
    let n = s.as_str().unicode_len();
    if n != 1 {
        assert(s@.len() != 1);
        return false;
    }
    let c = s.as_str().get_char(0);
    if c == '.' {
        assert(s@ =~= seq!['.']);
        true
    } else {
        assert(s@[0] != seq!['.'][0]);
        false
    }
}

/// The components of a path (see [`path_components`]).
pub fn components(p: &str) -> (r: Vec<String>)
    ensures
        r@.map_values(|s: String| s@) == path_components(p@),
{
    let n = p.unicode_len();
    let mut kept: Vec<String> = Vec::new();
    let mut cur = String::new();
    let mut i: usize = 0;
    assert(p@.subrange(0, 0) =~= Seq::<char>::empty());
    assert(split_on(Seq::<char>::empty(), '/').drop_last() =~= Seq::<Seq<char>>::empty());
    while i < n
        invariant
            n == p@.len(),
            i <= n,
            split_on(p@.subrange(0, i as int), '/').len() >= 1,
            kept@.map_values(|s: String| s@) == kept_segments(split_on(p@.subrange(0, i as int), '/').drop_last()),
            cur@ == split_on(p@.subrange(0, i as int), '/').last(),
        decreases n - i,
    {
        let ghost pre = p@.subrange(0, i as int);
        let ghost ls = split_on(pre, '/');
        let c = p.get_char(i);
        proof {
            assert(p@.subrange(0, i + 1).drop_last() =~= pre);
            assert(p@.subrange(0, i + 1).last() == c);
            lemma_split_on_nonempty(pre, '/');
            lemma_split_on_nonempty(p@.subrange(0, i + 1), '/');
        }
        if c == '/' {
            let ghost before = kept@.map_values(|s: String| s@);
            let keep = cur.as_str().unicode_len() > 0 && !is_dot(&cur);
            if keep {
                let piece = cur.clone();
                kept.push(piece);
                proof {
                    assert(kept@.map_values(|s: String| s@) =~= before.push(cur@));
                }
            }
            proof {
                let ls2 = split_on(p@.subrange(0, i + 1), '/');
                assert(ls2 == ls.push(Seq::<char>::empty()));
                assert(ls2.drop_last() =~= ls);
                assert(ls =~= ls.drop_last().push(ls.last()));
            }
            cur = String::new();
        } else {
            push_char(&mut cur, c);
            proof {
                let ls2 = split_on(p@.subrange(0, i + 1), '/');
                assert(ls2.drop_last() =~= ls.drop_last());
            }
        }
        i = i + 1;
    }
    let ghost segs = split_on(p@.subrange(0, n as int), '/');
    let ghost before = kept@.map_values(|s: String| s@);
    if cur.as_str().unicode_len() > 0 && !is_dot(&cur) {
        kept.push(cur);
        proof {
            assert(kept@.map_values(|s: String| s@) =~= before.push(segs.last()));
        }
    }
    proof {
        assert(p@.subrange(0, n as int) =~= p@);
        assert(segs =~= segs.drop_last().push(segs.last()));
    }
    let rooted = n > 0 && p.get_char(0) == '/';
    let cur_dir = !rooted && n >= 1 && p.get_char(0) == '.' && (n == 1 || p.get_char(1) == '/');
    if rooted || cur_dir {
        let mut head = String::new();
        push_char(&mut head, if rooted { '/' } else { '.' });
        let ghost hv = head@;
        let ghost tail = kept@.map_values(|s: String| s@);
        let mut out: Vec<String> = Vec::new();
        out.push(head);
        let mut j: usize = 0;
        while j < kept.len()
            invariant
                j <= kept@.len(),
                tail == kept@.map_values(|s: String| s@),
                out@.len() == j + 1,
                out@[0]@ == hv,
                out@.map_values(|s: String| s@) == seq![hv] + tail.subrange(0, j as int),
            decreases kept@.len() - j,
        {
            let piece = kept[j].clone();
            proof {
                assert(out@.push(piece).map_values(|s: String| s@) =~= out@.map_values(|s: String| s@).push(piece@));
                assert(tail.subrange(0, j + 1) =~= tail.subrange(0, j as int).push(tail[j as int]));
            }
            out.push(piece);
            j = j + 1;
        }
        proof {
            assert(tail.subrange(0, tail.len() as int) =~= tail);
            if rooted {
                assert(hv =~= seq!['/']);
            } else {
                assert(hv =~= seq!['.']);
            }
        }
        out
    } else {
        kept
    }
}

/// `base`'s components are a prefix of `path`'s (`Path::starts_with`).
pub open spec fn path_starts_with_spec(path: Seq<char>, base: Seq<char>) -> bool {
    let pc = path_components(path);
    let bc = path_components(base);
    bc.len() <= pc.len() && pc.subrange(0, bc.len() as int) == bc
}

/// Whether `path` lies under `base`, comparing whole components.
pub fn path_starts_with(path: &str, base: &str) -> (r: bool)
    ensures
        r == path_starts_with_spec(path@, base@),
{
    let pc = components(path);
    let bc = components(base);
    let ghost pv = pc@.map_values(|s: String| s@);
    let ghost bv = bc@.map_values(|s: String| s@);
    assert(pv.len() == pc@.len() && bv.len() == bc@.len());
    if bc.len() > pc.len() {
        return false;
    }
    let mut i: usize = 0;
    while i < bc.len()
        invariant
            i <= bc@.len(),
            bc@.len() <= pc@.len(),
            pv == pc@.map_values(|s: String| s@),
            bv == bc@.map_values(|s: String| s@),
            pv == path_components(path@),
            bv == path_components(base@),
            forall|k: int| 0 <= k < i ==> pv[k] == bv[k],
        decreases bc@.len() - i,
    {
        if !crate::text::str_eq(pc[i].as_str(), bc[i].as_str()) {
            proof {
                assert(pv[i as int] == pc@[i as int]@ && bv[i as int] == bc@[i as int]@);
                assert(pv[i as int] != bv[i as int]);
                if pv.subrange(0, bv.len() as int) == bv {
                    assert(pv.subrange(0, bv.len() as int)[i as int] == pv[i as int]);
                }
            }
            return false;
        }
        i = i + 1;
    }
    assert(pv.subrange(0, bv.len() as int) =~= bv);
    true
}

/// The last component when it names a file or directory (`Path::file_name`).
pub open spec fn file_name_spec(p: Seq<char>) -> Option<Seq<char>> {
    let cs = path_components(p);
    if cs.len() == 0 {
        None
    } else {
        let last = cs.last();
        if last == seq!['/'] || last == seq!['.'] || last == seq!['.', '.'] {
            None
        } else {
            Some(last)
        }
    }
}

/// The final component of a path, if it is a name.
pub fn file_name(p: &str) -> (r: Option<String>)
    ensures
        match file_name_spec(p@) {
            Some(f) => r matches Some(s) && s@ == f,
            None => r is None,
        },
{
    let cs = components(p);
    let ghost cv = cs@.map_values(|s: String| s@);
    let k = cs.len();
    if k == 0 {
        return None;
    }
    let last = &cs[k - 1];
    assert(last@ == cv.last());
    let n = last.as_str().unicode_len();
    let special = (n == 1 && (last.as_str().get_char(0) == '/' || last.as_str().get_char(0) == '.'))
        || (n == 2 && last.as_str().get_char(0) == '.' && last.as_str().get_char(1) == '.');
    proof {
        if n == 1 {
            assert(last@ =~= seq![last@[0]]);
        } else if n == 2 {
            assert(last@ =~= seq![last@[0], last@[1]]);
        }
        if last@ == seq!['/'] || last@ == seq!['.'] {
            assert(last@.len() == 1);
        }
        if last@ == seq!['.', '.'] {
            assert(last@.len() == 2);
        }
    }
    if special {
        None
    } else {
        Some(last.clone())
    }
}

/// Folds relative components into parts: names are pushed, `.` is
/// skipped, `..` drops the last part (if any); `None` when a root
/// component appears.
pub open spec fn fold_parts(cs: Seq<Seq<char>>) -> Option<Seq<Seq<char>>>
    decreases cs.len(),
{
    if cs.len() == 0 {
        Some(Seq::empty())
    } else {
        match fold_parts(cs.drop_last()) {
            None => None,
            Some(ps) => {
                let c = cs.last();
                if c == seq!['/'] {
                    None
                } else if c == seq!['.'] {
                    Some(ps)
                } else if c == seq!['.', '.'] {
                    Some(if ps.len() > 0 { ps.drop_last() } else { ps })
                } else {
                    Some(ps.push(c))
                }
            },
        }
    }
}

/// Parts joined with `/`.
pub open spec fn join_slash(ps: Seq<Seq<char>>) -> Seq<char>
    decreases ps.len(),
{
    if ps.len() == 0 {
        Seq::empty()
    } else if ps.len() == 1 {
        ps[0]
    } else {
        join_slash(ps.drop_last()) + seq!['/'] + ps.last()
    }
}

/// What `normalize` gives: the path of `file` relative to `root` as
/// `/`-separated parts, or the message of the error.
pub open spec fn normalize_spec(root: Seq<char>, file: Seq<char>) -> Result<Seq<char>, Seq<char>> {
    let fc = path_components(file);
    let rc = path_components(root);
    let absolute = file.len() > 0 && file[0] == '/';
    if absolute && !path_starts_with_spec(file, root) {
        Err("file path \""@ + file + "\" not inside \""@ + root + "\""@)
    } else {
        let rel = if absolute { fc.subrange(rc.len() as int, fc.len() as int) } else { fc };
        match fold_parts(rel) {
            None => Err("unexpected component: "@ + file),
            Some(ps) => if ps.len() == 0 {
                Err("empty path: "@ + file)
            } else {
                Ok(join_slash(ps))
            },
        }
    }
}

/// `file_path` relative to `game_root`, with `/` separators and `.`/`..`
/// resolved.
pub fn normalize(game_root: &str, file_path: &str) -> (r: Result<String, GError>)
    ensures
        match normalize_spec(game_root@, file_path@) {
            Ok(s) => r matches Ok(t) && t@ == s,
            Err(m) => r matches Err(GError::Path(msg)) && msg@ == m,
        },
{
    let n = file_path.unicode_len();
    let absolute = n > 0 && file_path.get_char(0) == '/';
    let fc = components(file_path);
    let ghost fv = fc@.map_values(|s: String| s@);
    let mut start: usize = 0;
    if absolute {
        if !path_starts_with(file_path, game_root) {
            let mut msg = owned("file path \"");
            push_str(&mut msg, file_path);
            push_str(&mut msg, "\" not inside \"");
            push_str(&mut msg, game_root);
            push_str(&mut msg, "\"");
            return Err(GError::Path(msg));
        }
        let rc = components(game_root);
        start = rc.len();
    }
    let ghost rel = fv.subrange(start as int, fv.len() as int);
    proof {
        if !absolute {
            assert(rel =~= fv);
        }
    }
    let mut parts: Vec<String> = Vec::new();
    let mut i: usize = start;
    assert(rel.subrange(0, 0) =~= Seq::<Seq<char>>::empty());
    while i < fc.len()
        invariant
            start <= i <= fc@.len(),
            fv == fc@.map_values(|s: String| s@),
            fv == path_components(file_path@),
            absolute == (file_path@.len() > 0 && file_path@[0] == '/'),
            absolute ==> path_starts_with_spec(file_path@, game_root@) && start == path_components(game_root@).len(),
            !absolute ==> start == 0 && rel == fv,
            rel == fv.subrange(start as int, fv.len() as int),
            fold_parts(rel.subrange(0, i - start)) == Some(parts@.map_values(|s: String| s@)),
        decreases fc@.len() - i,
    {
        let c = &fc[i];
        let ghost before = parts@.map_values(|s: String| s@);
        proof {
            assert(rel.subrange(0, i - start + 1).drop_last() =~= rel.subrange(0, i - start));
            assert(rel.subrange(0, i - start + 1).last() == c@);
        }
        let len = c.as_str().unicode_len();
        let is_root = len == 1 && c.as_str().get_char(0) == '/';
        let is_cur = len == 1 && c.as_str().get_char(0) == '.';
        let is_parent = len == 2 && c.as_str().get_char(0) == '.' && c.as_str().get_char(1) == '.';
        proof {
            if len == 1 {
                assert(c@ =~= seq![c@[0]]);
            } else if len == 2 {
                assert(c@ =~= seq![c@[0], c@[1]]);
            }
            if c@ == seq!['/'] || c@ == seq!['.'] {
                assert(c@.len() == 1);
            }
            if c@ == seq!['.', '.'] {
                assert(c@.len() == 2);
            }
        }
        if is_root {
            proof {
                lemma_fold_none_stays(rel, i - start + 1);
            }
            let mut msg = owned("unexpected component: ");
            push_str(&mut msg, file_path);
            return Err(GError::Path(msg));
        } else if is_cur {
        } else if is_parent {
            if parts.len() > 0 {
                parts.pop();
                proof {
                    assert(parts@.map_values(|s: String| s@) =~= before.drop_last());
                }
            }
        } else {
            parts.push(c.clone());
            proof {
                assert(parts@.map_values(|s: String| s@) =~= before.push(c@));
            }
        }
        i = i + 1;
    }
    assert(rel.subrange(0, fc@.len() - start) =~= rel);
    let ghost pv = parts@.map_values(|s: String| s@);
    if parts.len() == 0 {
        let mut msg = owned("empty path: ");
        push_str(&mut msg, file_path);
        return Err(GError::Path(msg));
    }
    let mut out = String::new();
    let mut j: usize = 0;
    while j < parts.len()
        invariant
            j <= parts@.len(),
            pv == parts@.map_values(|s: String| s@),
            out@ == join_slash(pv.subrange(0, j as int)),
        decreases parts@.len() - j,
    {
        proof {
            assert(pv.subrange(0, j + 1).drop_last() =~= pv.subrange(0, j as int));
            assert(pv.subrange(0, j + 1).last() == parts@[j as int]@);
        }
        if j > 0 {
            push_char(&mut out, '/');
        } else {
            assert(pv.subrange(0, 0) =~= Seq::<Seq<char>>::empty());
        }
        push_str(&mut out, parts[j].as_str());
        j = j + 1;
    }
    assert(pv.subrange(0, pv.len() as int) =~= pv);
    Ok(out)
}

proof fn lemma_fold_none_stays(cs: Seq<Seq<char>>, k: int)
    requires
        0 <= k <= cs.len(),
        fold_parts(cs.subrange(0, k)) is None,
    ensures
        fold_parts(cs) is None,
    decreases cs.len() - k,
{
    if k < cs.len() {
        assert(cs.subrange(0, k + 1).drop_last() =~= cs.subrange(0, k));
        lemma_fold_none_stays(cs, k + 1);
    } else {
        assert(cs.subrange(0, k) =~= cs);
    }
}


// ── `denormalize` undoes `normalize` ───────────────────────────────────

/// A part of a relative path that names something: not empty, no `/`,
/// neither `.` nor `..`.
pub open spec fn plain_part(s: Seq<char>) -> bool {
    s.len() > 0 && no_slash(s) && s != seq!['.'] && s != seq!['.', '.']
}

proof fn lemma_split_plain(b: Seq<char>)
    requires
        no_slash(b),
    ensures
        split_on(b, '/') == seq![b],
    decreases b.len(),
{
    if b.len() == 0 {
        assert(b =~= Seq::<char>::empty());
    } else {
        assert(no_slash(b.drop_last()));
        lemma_split_plain(b.drop_last());
        assert(b.drop_last().push(b.last()) =~= b);
        assert(b.last() != '/');
        let l = split_on(b.drop_last(), '/');
        assert(l.update(l.len() - 1, l.last().push(b.last())) =~= seq![b]);
    }
}

proof fn lemma_split_concat(a: Seq<char>, b: Seq<char>)
    ensures
        split_on(a + seq!['/'] + b, '/') == split_on(a, '/') + split_on(b, '/'),
    decreases b.len(),
{
    let x = a + seq!['/'] + b;
    if b.len() == 0 {
        assert(x.drop_last() =~= a);
        assert(split_on(a, '/').push(Seq::<char>::empty()) =~= split_on(a, '/') + seq![Seq::<char>::empty()]);
    } else {
        lemma_split_concat(a, b.drop_last());
        assert(x.drop_last() =~= a + seq!['/'] + b.drop_last());
        assert(x.last() == b.last());
        lemma_split_on_nonempty(b.drop_last(), '/');
        lemma_split_on_nonempty(a, '/');
        let la = split_on(a, '/');
        let lb = split_on(b.drop_last(), '/');
        if b.last() == '/' {
            assert((la + lb).push(Seq::<char>::empty()) =~= la + lb.push(Seq::<char>::empty()));
        } else {
            let l = la + lb;
            assert(l.update(l.len() - 1, l.last().push(b.last())) =~= la + lb.update(
                lb.len() - 1,
                lb.last().push(b.last()),
            ));
        }
    }
}

proof fn lemma_kept_concat(s1: Seq<Seq<char>>, s2: Seq<Seq<char>>)
    ensures
        kept_segments(s1 + s2) == kept_segments(s1) + kept_segments(s2),
    decreases s2.len(),
{
    if s2.len() == 0 {
        assert(s1 + s2 =~= s1);
        assert(kept_segments(s1) + kept_segments(s2) =~= kept_segments(s1));
    } else {
        lemma_kept_concat(s1, s2.drop_last());
        assert((s1 + s2).drop_last() =~= s1 + s2.drop_last());
        assert((s1 + s2).last() == s2.last());
        let k1 = kept_segments(s1);
        let k2 = kept_segments(s2.drop_last());
        assert((k1 + k2).push(s2.last()) =~= k1 + k2.push(s2.last()));
    }
}

proof fn lemma_kept_plain(ps: Seq<Seq<char>>)
    requires
        forall|i: int| 0 <= i < ps.len() ==> plain_part(#[trigger] ps[i]),
    ensures
        kept_segments(ps) == ps,
        fold_parts(ps) == Some(ps),
    decreases ps.len(),
{
    if ps.len() > 0 {
        lemma_kept_plain(ps.drop_last());
        assert(ps.drop_last().push(ps.last()) =~= ps);
        assert(plain_part(ps[ps.len() - 1]));
        assert(ps.last() != seq!['/']) by {
            assert(ps.last()[0] != '/');
        }
    }
}

/// `join_slash` read from the front.
proof fn lemma_join_front(ps: Seq<Seq<char>>)
    requires
        ps.len() >= 2,
    ensures
        join_slash(ps) == ps[0] + seq!['/'] + join_slash(ps.drop_first()),
    decreases ps.len(),
{
    if ps.len() == 2 {
        assert(ps.drop_last() =~= seq![ps[0]]);
        assert(ps.drop_first() =~= seq![ps[1]]);
        assert(join_slash(ps.drop_last()) == ps[0]);
        assert(join_slash(ps.drop_first()) == ps[1]);
        assert(join_slash(ps) == join_slash(ps.drop_last()) + seq!['/'] + ps.last());
    } else {
        lemma_join_front(ps.drop_last());
        assert(ps.drop_last().drop_first() =~= ps.drop_first().drop_last());
        assert(ps.drop_first().last() == ps.last());
        assert(join_slash(ps.drop_first()) == join_slash(ps.drop_first().drop_last()) + seq!['/'] + ps.last());
        assert(join_slash(ps) == join_slash(ps.drop_last()) + seq!['/'] + ps.last());
        assert(ps.drop_last()[0] == ps[0]);
        assert(join_slash(ps) =~= ps[0] + seq!['/'] + join_slash(ps.drop_first()));
    }
}

proof fn lemma_split_joined(ps: Seq<Seq<char>>)
    requires
        ps.len() > 0,
        forall|i: int| 0 <= i < ps.len() ==> no_slash(#[trigger] ps[i]),
    ensures
        split_on(join_slash(ps), '/') == ps,
    decreases ps.len(),
{
    if ps.len() == 1 {
        lemma_split_plain(ps[0]);
        assert(seq![ps[0]] =~= ps);
    } else {
        lemma_split_joined(ps.drop_last());
        assert(no_slash(ps[ps.len() - 1]));
        lemma_split_plain(ps.last());
        lemma_split_concat(join_slash(ps.drop_last()), ps.last());
        assert(ps.drop_last() + seq![ps.last()] =~= ps);
    }
}


proof fn lemma_push_parts_plain(p: Seq<char>, cur: Seq<char>, x: Seq<char>, rest: Seq<char>)
    requires
        no_slash(x),
    ensures
        push_parts(p, cur, x + rest) == push_parts(p, cur + x, rest),
    decreases x.len(),
{
    if x.len() == 0 {
        assert(x + rest =~= rest);
        assert(cur + x =~= cur);
    } else {
        let y = x + rest;
        assert(y[0] == x[0]);
        assert(y.drop_first() =~= x.drop_first() + rest);
        assert(no_slash(x.drop_first()));
        lemma_push_parts_plain(p, cur.push(x[0]), x.drop_first(), rest);
        assert(cur.push(x[0]) + x.drop_first() =~= cur + x);
    }
}

proof fn lemma_join_first_char(ps: Seq<Seq<char>>)
    requires
        ps.len() > 0,
        ps[0].len() > 0,
    ensures
        join_slash(ps).len() > 0,
        join_slash(ps)[0] == ps[0][0],
{
    if ps.len() >= 2 {
        lemma_join_front(ps);
    }
}

/// Pushing the parts of a joined path one by one.
proof fn lemma_push_joined(p: Seq<char>, ps: Seq<Seq<char>>)
    requires
        ps.len() > 0,
        forall|i: int| 0 <= i < ps.len() ==> no_slash(#[trigger] ps[i]),
    ensures
        push_parts(p, Seq::empty(), join_slash(ps)) == join_all(p, ps),
    decreases ps.len(),
{
    assert(no_slash(ps[0]));
    if ps.len() == 1 {
        lemma_push_parts_plain(p, Seq::empty(), ps[0], Seq::empty());
        assert(ps[0] + Seq::<char>::empty() =~= ps[0]);
        assert(Seq::<char>::empty() + ps[0] =~= ps[0]);
        assert(ps.drop_first() =~= Seq::<Seq<char>>::empty());
        assert(join_slash(ps) == ps[0]);
        assert(push_parts(p, ps[0], Seq::empty()) == path_join(p, ps[0]));
        assert(join_all(path_join(p, ps[0]), ps.drop_first()) == path_join(p, ps[0]));
        assert(join_all(p, ps) == join_all(path_join(p, ps[0]), ps.drop_first()));
    } else {
        lemma_join_front(ps);
        let rest = join_slash(ps.drop_first());
        assert(ps[0] + seq!['/'] + rest =~= ps[0] + (seq!['/'] + rest));
        lemma_push_parts_plain(p, Seq::empty(), ps[0], seq!['/'] + rest);
        assert(Seq::<char>::empty() + ps[0] =~= ps[0]);
        assert((seq!['/'] + rest)[0] == '/');
        assert((seq!['/'] + rest).drop_first() =~= rest);
        assert forall|i: int| 0 <= i < ps.drop_first().len() implies no_slash(#[trigger] ps.drop_first()[i]) by {
            assert(ps.drop_first()[i] == ps[i + 1]);
        }
        lemma_push_joined(path_join(p, ps[0]), ps.drop_first());
        let tail = seq!['/'] + rest;
        assert(join_slash(ps) == ps[0] + tail);
        assert(push_parts(p, Seq::empty(), join_slash(ps)) == push_parts(p, ps[0], tail));
        assert(tail.len() > 0 && tail[0] == '/');
        assert(push_parts(p, ps[0], tail) == push_parts(path_join(p, ps[0]), Seq::empty(), tail.drop_first()));
        assert(join_all(p, ps) == join_all(path_join(p, ps[0]), ps.drop_first()));
    }
}

/// Joining the parts one by one onto a non-empty directory is joining
/// the `/`-joined parts once.
proof fn lemma_join_all_joined(p: Seq<char>, ps: Seq<Seq<char>>)
    requires
        p.len() > 0,
        ps.len() > 0,
        forall|i: int| 0 <= i < ps.len() ==> plain_part(#[trigger] ps[i]),
    ensures
        join_all(p, ps) == path_join(p, join_slash(ps)),
    decreases ps.len(),
{
    reveal_strlit("/");
    assert(plain_part(ps[0]));
    if ps.len() == 1 {
        assert(ps.drop_first() =~= Seq::<Seq<char>>::empty());
        assert(join_slash(ps) == ps[0]);
        assert(join_all(path_join(p, ps[0]), ps.drop_first()) == path_join(p, ps[0]));
        assert(join_all(p, ps) == join_all(path_join(p, ps[0]), ps.drop_first()));
    } else {
        let q = path_join(p, ps[0]);
        assert(join_all(p, ps) == join_all(q, ps.drop_first()));
        lemma_join_ends_with(p, ps[0]);
        assert forall|i: int| 0 <= i < ps.drop_first().len() implies plain_part(#[trigger] ps.drop_first()[i]) by {
            assert(ps.drop_first()[i] == ps[i + 1]);
        }
        lemma_join_all_joined(q, ps.drop_first());
        let j1 = join_slash(ps.drop_first());
        assert(plain_part(ps[1]));
        assert(ps.drop_first()[0] == ps[1]);
        lemma_join_first_char(ps.drop_first());
        assert(ps[1][0] != '/');
        assert(path_join(q, j1) == q + "/"@ + j1);
        lemma_join_front(ps);
        let j = join_slash(ps);
        assert(j == ps[0] + seq!['/'] + j1);
        assert(j[0] == ps[0][0]);
        assert(seq!['/'] =~= "/"@);
        if p.last() == '/' {
            assert(path_join(p, j) =~= q + "/"@ + j1);
        } else {
            assert(path_join(p, j) =~= q + "/"@ + j1);
        }
    }
}


/// The components of a file under an absolute root are the root's, then
/// the file's relative parts.
proof fn lemma_components_under(root: Seq<char>, ps: Seq<Seq<char>>)
    requires
        root.len() > 0,
        root[0] == '/',
        ps.len() > 0,
        forall|i: int| 0 <= i < ps.len() ==> plain_part(#[trigger] ps[i]),
    ensures
        path_join(root, join_slash(ps)).len() > 0,
        path_join(root, join_slash(ps))[0] == '/',
        path_components(path_join(root, join_slash(ps))) == path_components(root) + ps,
{
    reveal_strlit("/");
    let j = join_slash(ps);
    assert(plain_part(ps[0]));
    lemma_join_first_char(ps);
    assert forall|i: int| 0 <= i < ps.len() implies no_slash(#[trigger] ps[i]) by {
        assert(plain_part(ps[i]));
    }
    lemma_split_joined(ps);
    lemma_kept_plain(ps);
    let f = path_join(root, j);
    let kr = kept_segments(split_on(root, '/'));
    if root.last() == '/' {
        let r0 = root.drop_last();
        assert(root =~= r0 + seq!['/'] + Seq::<char>::empty());
        assert(f =~= r0 + seq!['/'] + j);
        lemma_split_concat(r0, j);
        lemma_split_concat(r0, Seq::<char>::empty());
        lemma_kept_concat(split_on(r0, '/'), ps);
        lemma_kept_concat(split_on(r0, '/'), split_on(Seq::<char>::empty(), '/'));
        assert(kept_segments(split_on(Seq::<char>::empty(), '/')) =~= Seq::<Seq<char>>::empty()) by {
            let e = seq![Seq::<char>::empty()];
            assert(split_on(Seq::<char>::empty(), '/') == e);
            assert(e.drop_last() =~= Seq::<Seq<char>>::empty());
            assert(kept_segments(e.drop_last()) == Seq::<Seq<char>>::empty());
            assert(e.last().len() == 0);
            assert(kept_segments(e) == kept_segments(e.drop_last()));
        }
        assert(kr =~= kept_segments(split_on(r0, '/')));
        assert(kept_segments(split_on(f, '/')) =~= kr + ps);
    } else {
        assert(f =~= root + seq!['/'] + j);
        lemma_split_concat(root, j);
        lemma_kept_concat(split_on(root, '/'), ps);
        assert(kept_segments(split_on(f, '/')) =~= kr + ps);
    }
    assert(f[0] == '/');
    assert(path_components(f) =~= path_components(root) + ps);
}

/// `denormalize` undoes `normalize`: for a file given as an absolute
/// root joined with plain relative parts, `normalize` gives the parts
/// joined with `/`, and `denormalize` turns that back into the same path.
pub proof fn lemma_denormalize_undoes_normalize(root: Seq<char>, ps: Seq<Seq<char>>)
    requires
        root.len() > 0,
        root[0] == '/',
        ps.len() > 0,
        forall|i: int| 0 <= i < ps.len() ==> plain_part(#[trigger] ps[i]),
    ensures
        normalize_spec(root, path_join(root, join_slash(ps))) == Ok::<Seq<char>, Seq<char>>(join_slash(ps)),
        push_parts(root, Seq::empty(), join_slash(ps)) == path_join(root, join_slash(ps)),
{
    let f = path_join(root, join_slash(ps));
    lemma_components_under(root, ps);
    let fc = path_components(f);
    let rc = path_components(root);
    assert(fc.subrange(0, rc.len() as int) =~= rc);
    assert(path_starts_with_spec(f, root));
    assert(fc.subrange(rc.len() as int, fc.len() as int) =~= ps);
    lemma_kept_plain(ps);
    assert forall|i: int| 0 <= i < ps.len() implies no_slash(#[trigger] ps[i]) by {
        assert(plain_part(ps[i]));
    }
    lemma_push_joined(root, ps);
    lemma_join_all_joined(root, ps);
}


} // verus!
