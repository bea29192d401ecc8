//! Whether a tracked game is running, so that background compaction can
//! pause while the user plays.
//!
//! A game counts as running when some process's executable lies inside
//! its directory, comparing whole path components; both paths are taken
//! as already resolved (canonical).

use vstd::prelude::*;
use crate::db::games::Game;
use crate::path_utils::{file_name, file_name_spec, path_starts_with, path_starts_with_spec};
use crate::text::{owned, push_str, str_eq};

verus! {

/// A running tracked game and the executable that shows it.
#[derive(Debug, Clone)]
pub struct RunningGame {
    pub alias: String,
    pub title: String,
    pub exe: String,
}

/// The running tracked games.
#[derive(Debug, Clone)]
pub struct GameRunState {
    pub running: Vec<RunningGame>,
}

impl Default for GameRunState {
    fn default() -> (r: GameRunState)
        ensures
            r.running@.len() == 0,
    {
        GameRunState { running: Vec::new() }
    }
}

/// `alias (exe file name)`, with `?` for an executable path without one.
pub open spec fn running_label(g: RunningGame) -> Seq<char> {
    g.alias@ + " ("@ + (match file_name_spec(g.exe@) {
        Some(f) => f,
        None => "?"@,
    }) + ")"@
}

/// The labels of `gs`, separated by `", "`.
pub open spec fn join_labels(gs: Seq<RunningGame>) -> Seq<char>
    decreases gs.len(),
{
    if gs.len() == 0 {
        Seq::empty()
    } else if gs.len() == 1 {
        running_label(gs[0])
    } else {
        join_labels(gs.drop_last()) + ", "@ + running_label(gs.last())
    }
}

impl GameRunState {
    /// `true` when some tracked game runs.
    pub fn any(&self) -> (r: bool)
        ensures
            r == (self.running@.len() > 0),
    {
        self.running.len() > 0
    }

    /// A readable summary, e.g. `cyberpunk (cyberpunk2077.exe)`.
    pub fn summary(&self) -> (r: String)
        ensures
            r@ == join_labels(self.running@),
    {
        let mut out = String::new();
        let mut i: usize = 0;
        while i < self.running.len()
            invariant
                i <= self.running@.len(),
                out@ == join_labels(self.running@.subrange(0, i as int)),
            decreases self.running@.len() - i,
        {
            let g = &self.running[i];
            proof {
                assert(self.running@.subrange(0, i + 1).drop_last() =~= self.running@.subrange(0, i as int));
                assert(self.running@.subrange(0, i + 1).last() == *g);
            }
            if i > 0 {
                push_str(&mut out, ", ");
            } else {
                assert(self.running@.subrange(0, 0) =~= Seq::<RunningGame>::empty());
            }
            push_str(&mut out, g.alias.as_str());
            push_str(&mut out, " (");
            match file_name(g.exe.as_str()) {
                Some(f) => push_str(&mut out, f.as_str()),
                None => push_str(&mut out, "?"),
            }
            push_str(&mut out, ")");
            i = i + 1;
        }
        assert(self.running@.subrange(0, self.running@.len() as int) =~= self.running@);
        out
    }
}

/// `exe_path` lies inside `game_dir` (whole components).
pub fn exe_inside_game_dir(exe_path: &str, game_dir: &str) -> (r: bool)
    ensures
        r == path_starts_with_spec(exe_path@, game_dir@),
{
    path_starts_with(exe_path, game_dir)
}

/// The games found running, walking the executables in order and each
/// game's directory in order; a game is listed once, with the first
/// executable found inside it.
pub open spec fn running_found(dirs: Seq<(Game, String)>, exes: Seq<String>, n: int) -> Seq<(Seq<char>, Seq<char>, Seq<char>)>
    decreases n, 0int,
{
    if n <= 0 {
        Seq::empty()
    } else {
        found_for_exe(dirs, exes[n - 1]@, running_found(dirs, exes, n - 1), dirs.len() as int)
    }
}

/// `seen` extended with the games among the first `m` directories that
/// contain `exe` and are not listed yet.
pub open spec fn found_for_exe(
    dirs: Seq<(Game, String)>,
    exe: Seq<char>,
    seen: Seq<(Seq<char>, Seq<char>, Seq<char>)>,
    m: int,
) -> Seq<(Seq<char>, Seq<char>, Seq<char>)>
    decreases m,
{
    if m <= 0 {
        seen
    } else {
        let s = found_for_exe(dirs, exe, seen, m - 1);
        let (g, dir) = dirs[m - 1];
        if path_starts_with_spec(exe, dir@) && !(exists|k: int| 0 <= k < s.len() && (#[trigger] s[k]).0 == g.alias@) {
            s.push((g.alias@, g.title@, exe))
        } else {
            s
        }
    }
}

/// Some entry of `s` is listed under `alias`.
pub open spec fn alias_listed(s: Seq<(Seq<char>, Seq<char>, Seq<char>)>, alias: Seq<char>) -> bool {
    exists|k: int| 0 <= k < s.len() && (#[trigger] s[k]).0 == alias
}

/// No alias is listed twice.
pub open spec fn aliases_distinct(s: Seq<(Seq<char>, Seq<char>, Seq<char>)>) -> bool {
    forall|k1: int, k2: int| 0 <= k1 < k2 < s.len() ==> (#[trigger] s[k1]).0 != (#[trigger] s[k2]).0
}

/// `e` names a game among the first `m` directories whose directory holds
/// `exe`, with that executable.
pub open spec fn found_in(dirs: Seq<(Game, String)>, exe: Seq<char>, m: int, e: (Seq<char>, Seq<char>, Seq<char>)) -> bool {
    exists|j: int|
        0 <= j < m && path_starts_with_spec(exe, (#[trigger] dirs[j]).1@) && e == (dirs[j].0.alias@, dirs[j].0.title@, exe)
}

/// `e` names a game whose directory holds one of the first `n`
/// executables, with that executable.
pub open spec fn found_among(dirs: Seq<(Game, String)>, exes: Seq<String>, n: int, e: (Seq<char>, Seq<char>, Seq<char>)) -> bool {
    exists|i: int, j: int|
        0 <= i < n && 0 <= j < dirs.len() && path_starts_with_spec((#[trigger] exes[i])@, (#[trigger] dirs[j]).1@)
            && e == (dirs[j].0.alias@, dirs[j].0.title@, exes[i]@)
}

/// Scanning one executable against the first `m` directories keeps what
/// was found before, adds only games whose directory holds `exe`, lists
/// every such game, and lists no game twice.
pub proof fn lemma_found_for_exe(
    dirs: Seq<(Game, String)>,
    exe: Seq<char>,
    seen: Seq<(Seq<char>, Seq<char>, Seq<char>)>,
    m: int,
)
    requires
        0 <= m <= dirs.len(),
    ensures
        ({
            let s = found_for_exe(dirs, exe, seen, m);
            &&& seen.len() <= s.len()
            &&& forall|k: int| 0 <= k < seen.len() ==> s[k] == seen[k]
            &&& forall|k: int| seen.len() <= k < s.len() ==> found_in(dirs, exe, m, #[trigger] s[k])
            &&& forall|j: int| 0 <= j < m && path_starts_with_spec(exe, (#[trigger] dirs[j]).1@)
                ==> alias_listed(s, dirs[j].0.alias@)
            &&& aliases_distinct(seen) ==> aliases_distinct(s)
        }),
    decreases m,
{
    if m > 0 {
        lemma_found_for_exe(dirs, exe, seen, m - 1);
        let s0 = found_for_exe(dirs, exe, seen, m - 1);
        let s = found_for_exe(dirs, exe, seen, m);
        let g = dirs[m - 1].0;
        let dir = dirs[m - 1].1;
        if path_starts_with_spec(exe, dir@) && !alias_listed(s0, g.alias@) {
            let e = (g.alias@, g.title@, exe);
            assert(s == s0.push(e));
            assert forall|k: int| 0 <= k < seen.len() implies s[k] == seen[k] by {
                assert(s[k] == s0[k]);
            }
            assert forall|k: int| seen.len() <= k < s.len() implies found_in(dirs, exe, m, #[trigger] s[k]) by {
                if k < s0.len() {
                    assert(s[k] == s0[k]);
                    let j = choose|j: int| 0 <= j < m - 1 && path_starts_with_spec(exe, (#[trigger] dirs[j]).1@)
                        && s0[k] == (dirs[j].0.alias@, dirs[j].0.title@, exe);
                    assert(0 <= j < m && path_starts_with_spec(exe, dirs[j].1@));
                    assert(s[k] == (dirs[j].0.alias@, dirs[j].0.title@, exe));
                } else {
                    assert(s[k] == e);
                    assert(path_starts_with_spec(exe, dirs[m - 1].1@));
                    assert(s[k] == (dirs[m - 1].0.alias@, dirs[m - 1].0.title@, exe));
                }
            }
            assert forall|j: int| 0 <= j < m && path_starts_with_spec(exe, (#[trigger] dirs[j]).1@)
                implies alias_listed(s, dirs[j].0.alias@) by {
                if j < m - 1 {
                    let k = choose|k: int| 0 <= k < s0.len() && (#[trigger] s0[k]).0 == dirs[j].0.alias@;
                    assert(s[k] == s0[k]);
                } else {
                    assert(s[s0.len() as int] == e);
                }
            }
            if aliases_distinct(seen) {
                assert forall|k1: int, k2: int| 0 <= k1 < k2 < s.len() implies (#[trigger] s[k1]).0 != (#[trigger] s[k2]).0 by {
                    assert(s[k1] == s0[k1]);
                    if k2 < s0.len() {
                        assert(s[k2] == s0[k2]);
                    } else {
                        assert(s[k2] == e);
                        assert(!alias_listed(s0, g.alias@));
                    }
                }
            }
        } else {
            assert(s == s0);
            assert forall|j: int| 0 <= j < m && path_starts_with_spec(exe, (#[trigger] dirs[j]).1@)
                implies alias_listed(s, dirs[j].0.alias@) by {
                if j == m - 1 {
                    assert(alias_listed(s0, g.alias@));
                }
            }
            assert forall|k: int| seen.len() <= k < s.len() implies found_in(dirs, exe, m, #[trigger] s[k]) by {
                assert(s[k] == s0[k]);
                let j = choose|j: int| 0 <= j < m - 1 && path_starts_with_spec(exe, (#[trigger] dirs[j]).1@)
                    && s0[k] == (dirs[j].0.alias@, dirs[j].0.title@, exe);
                assert(0 <= j < m && path_starts_with_spec(exe, dirs[j].1@));
            }
        }
    } else {
        assert(found_for_exe(dirs, exe, seen, m) == seen);
    }
}

/// After the first `n` executables: every listed game has its directory
/// holding one of them, with that executable; every game whose directory
/// holds one of them is listed; and no game is listed twice.
pub proof fn lemma_running_found(dirs: Seq<(Game, String)>, exes: Seq<String>, n: int)
    requires
        0 <= n <= exes.len(),
    ensures
        ({
            let s = running_found(dirs, exes, n);
            &&& forall|k: int| 0 <= k < s.len() ==> found_among(dirs, exes, n, #[trigger] s[k])
            &&& forall|i: int, j: int| 0 <= i < n && 0 <= j < dirs.len()
                && path_starts_with_spec((#[trigger] exes[i])@, (#[trigger] dirs[j]).1@) ==> alias_listed(s, dirs[j].0.alias@)
            &&& aliases_distinct(s)
        }),
    decreases n,
{
    if n > 0 {
        lemma_running_found(dirs, exes, n - 1);
        let s0 = running_found(dirs, exes, n - 1);
        let exe = exes[n - 1]@;
        lemma_found_for_exe(dirs, exe, s0, dirs.len() as int);
        let s = running_found(dirs, exes, n);
        assert forall|k: int| 0 <= k < s.len() implies found_among(dirs, exes, n, #[trigger] s[k]) by {
            if k < s0.len() {
                assert(s[k] == s0[k]);
                assert(found_among(dirs, exes, n - 1, s0[k]));
                let (i, j) = choose|i: int, j: int|
                    0 <= i < n - 1 && 0 <= j < dirs.len() && path_starts_with_spec((#[trigger] exes[i])@, (#[trigger] dirs[j]).1@)
                        && s0[k] == (dirs[j].0.alias@, dirs[j].0.title@, exes[i]@);
                assert(path_starts_with_spec(exes[i]@, dirs[j].1@));
            } else {
                assert(found_in(dirs, exe, dirs.len() as int, s[k]));
                let j = choose|j: int| 0 <= j < dirs.len() && path_starts_with_spec(exe, (#[trigger] dirs[j]).1@)
                    && s[k] == (dirs[j].0.alias@, dirs[j].0.title@, exe);
                assert(path_starts_with_spec(exes[n - 1]@, dirs[j].1@));
            }
        }
        assert forall|i: int, j: int| 0 <= i < n && 0 <= j < dirs.len()
            && path_starts_with_spec((#[trigger] exes[i])@, (#[trigger] dirs[j]).1@) implies alias_listed(s, dirs[j].0.alias@) by {
            if i < n - 1 {
                let k = choose|k: int| 0 <= k < s0.len() && (#[trigger] s0[k]).0 == dirs[j].0.alias@;
                assert(s[k] == s0[k]);
            }
        }
    }
}

pub open spec fn running_view(g: RunningGame) -> (Seq<char>, Seq<char>, Seq<char>) {
    (g.alias@, g.title@, g.exe@)
}

fn listed(running: &Vec<RunningGame>, alias: &str) -> (r: bool)
    ensures
        r == exists|k: int| 0 <= k < running@.len() && (#[trigger] running@[k]).alias@ == alias@,
{
    let mut i: usize = 0;
    while i < running.len()
        invariant
            i <= running@.len(),
            forall|k: int| 0 <= k < i ==> (#[trigger] running@[k]).alias@ != alias@,
        decreases running@.len() - i,
    {
        if str_eq(running[i].alias.as_str(), alias) {
            return true;
        }
        i = i + 1;
    }
    false
}

/// Matches resolved game directories (`dirs`: each game with its
/// canonical directory) against resolved process executables (`exes`).
pub fn running_games(dirs: &[(Game, String)], exes: &[String]) -> (r: GameRunState)
    ensures
        r.running@.map_values(|g: RunningGame| running_view(g)) == running_found(dirs@, exes@, exes@.len() as int),
        forall|i: int, j: int| 0 <= i < exes@.len() && 0 <= j < dirs@.len()
            && path_starts_with_spec((#[trigger] exes@[i])@, (#[trigger] dirs@[j]).1@)
            ==> exists|k: int| 0 <= k < r.running@.len() && (#[trigger] r.running@[k]).alias@ == dirs@[j].0.alias@,
        forall|k: int| 0 <= k < r.running@.len()
            ==> found_among(dirs@, exes@, exes@.len() as int, running_view(#[trigger] r.running@[k])),
        forall|k1: int, k2: int| 0 <= k1 < k2 < r.running@.len()
            ==> (#[trigger] r.running@[k1]).alias@ != (#[trigger] r.running@[k2]).alias@,
{
    let mut running: Vec<RunningGame> = Vec::new();
    let mut i: usize = 0;
    while i < exes.len()
        invariant
            i <= exes@.len(),
            running@.map_values(|g: RunningGame| running_view(g)) == running_found(dirs@, exes@, i as int),
        decreases exes@.len() - i,
    {
        let exe = &exes[i];
        let ghost seen = running_found(dirs@, exes@, i as int);
        let mut j: usize = 0;
        while j < dirs.len()
            invariant
                j <= dirs@.len(),
                *exe == exes@[i as int],
                running@.map_values(|g: RunningGame| running_view(g)) == found_for_exe(dirs@, exe@, seen, j as int),
            decreases dirs@.len() - j,
        {
            let g = &dirs[j].0;
            let dir = &dirs[j].1;
            let ghost before = running@.map_values(|g: RunningGame| running_view(g));
            proof {
                assert forall|k: int| 0 <= k < running@.len() implies (#[trigger] running@[k]).alias@ == before[k].0 by {}
            }
            if path_starts_with(exe.as_str(), dir.as_str()) && !listed(&running, g.alias.as_str()) {
                let rg = RunningGame { alias: g.alias.clone(), title: g.title.clone(), exe: exe.clone() };
                proof {
                    assert(!(exists|k: int| 0 <= k < before.len() && (#[trigger] before[k]).0 == g.alias@)) by {
                        if exists|k: int| 0 <= k < before.len() && (#[trigger] before[k]).0 == g.alias@ {
                            let k = choose|k: int| 0 <= k < before.len() && (#[trigger] before[k]).0 == g.alias@;
                            assert(running@[k].alias@ == g.alias@);
                        }
                    }
                    assert(running@.push(rg).map_values(|g: RunningGame| running_view(g)) =~= before.push(running_view(rg)));
                }
                running.push(rg);
            } else {
                proof {
                    if path_starts_with_spec(exe@, dir@) {
                        let k = choose|k: int| 0 <= k < running@.len() && (#[trigger] running@[k]).alias@ == g.alias@;
                        assert(before[k].0 == g.alias@);
                    }
                }
            }
            j = j + 1;
        }
        i = i + 1;
    }
    proof {
        let rv = running@.map_values(|g: RunningGame| running_view(g));
        lemma_running_found(dirs@, exes@, exes@.len() as int);
        assert forall|k: int| 0 <= k < running@.len() implies #[trigger] rv[k] == (
            running@[k].alias@,
            running@[k].title@,
            running@[k].exe@,
        ) by {}
        assert forall|i: int, j: int| 0 <= i < exes@.len() && 0 <= j < dirs@.len()
            && path_starts_with_spec((#[trigger] exes@[i])@, (#[trigger] dirs@[j]).1@)
            implies exists|k: int| 0 <= k < running@.len() && (#[trigger] running@[k]).alias@ == dirs@[j].0.alias@ by {
            let k = choose|k: int| 0 <= k < rv.len() && (#[trigger] rv[k]).0 == dirs@[j].0.alias@;
            assert(rv[k] == running_view(running@[k]));
        }
        assert forall|k: int| 0 <= k < running@.len()
            implies found_among(dirs@, exes@, exes@.len() as int, running_view(#[trigger] running@[k])) by {
            assert(rv[k] == running_view(running@[k]));
        }
        assert forall|k1: int, k2: int| 0 <= k1 < k2 < running@.len()
            implies (#[trigger] running@[k1]).alias@ != (#[trigger] running@[k2]).alias@ by {
            assert(rv[k1] == running_view(running@[k1]));
            assert(rv[k2] == running_view(running@[k2]));
        }
    }
    GameRunState { running }
}

} // verus!
