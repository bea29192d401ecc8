//! Configuration: data-directory layout and the key/value config store.

pub mod gim_config;

use vstd::prelude::*;
use crate::path_utils::{join, path_join};

verus! {

/// Where gim keeps its files, all derived from the binary's directory
/// (or an overriding data directory).
#[derive(Debug, Clone)]
pub struct Paths {
    pub binary_dir: String,
    pub data_dir: String,
    pub games_db: String,
    pub global_gignore: String,
}

impl Paths {
    /// The layout for a binary living in `bd`: data under `bd/data`.
    pub fn from_binary_dir(bd: String) -> (r: Paths)
        ensures
            r.binary_dir@ == bd@,
            r.data_dir@ == path_join(bd@, "data"@),
            r.games_db@ == path_join(path_join(bd@, "data"@), "games.db"@),
            r.global_gignore@ == path_join(path_join(bd@, "data"@), "gignore"@),
    {
        let dd = join(bd.as_str(), "data");
        Paths {
            games_db: join(dd.as_str(), "games.db"),
            global_gignore: join(dd.as_str(), "gignore"),
            binary_dir: bd,
            data_dir: dd,
        }
    }

    /// The same layout with the data directory moved to `dd`.
    pub fn with_data_dir(self, dd: String) -> (r: Paths)
        ensures
            r.binary_dir == self.binary_dir,
            r.data_dir@ == dd@,
            r.games_db@ == path_join(dd@, "games.db"@),
            r.global_gignore@ == path_join(dd@, "gignore"@),
    {
        let games_db = join(dd.as_str(), "games.db");
        let global_gignore = join(dd.as_str(), "gignore");
        Paths { binary_dir: self.binary_dir, data_dir: dd, games_db, global_gignore }
    }

    /// `data/<alias>`.
    pub fn game_data_dir(&self, a: &str) -> (r: String)
        ensures
            r@ == path_join(self.data_dir@, a@),
    {
        join(self.data_dir.as_str(), a)
    }

    /// `data/<alias>/snaps.db`.
    pub fn snaps_db(&self, a: &str) -> (r: String)
        ensures
            r@ == path_join(path_join(self.data_dir@, a@), "snaps.db"@),
    {
        let g = self.game_data_dir(a);
        join(g.as_str(), "snaps.db")
    }

    /// `data/<alias>/objects`.
    pub fn objects_dir(&self, a: &str) -> (r: String)
        ensures
            r@ == path_join(path_join(self.data_dir@, a@), "objects"@),
    {
        let g = self.game_data_dir(a);
        join(g.as_str(), "objects")
    }

    /// `data/<alias>/.gignore`.
    pub fn per_game_gignore(&self, a: &str) -> (r: String)
        ensures
            r@ == path_join(path_join(self.data_dir@, a@), ".gignore"@),
    {
        let g = self.game_data_dir(a);
        join(g.as_str(), ".gignore")
    }

    /// `<game dir>/.gignore`.
    pub fn in_game_gignore(&self, gd: &str) -> (r: String)
        ensures
            r@ == path_join(gd@, ".gignore"@),
    {
        join(gd, ".gignore")
    }
}

} // verus!
