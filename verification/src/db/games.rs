//! A tracked game.

use vstd::prelude::*;

verus! {

/// One tracked game: its alias, title, directory and data directory.
#[derive(Debug, Clone)]
pub struct Game {
    pub id: i64,
    pub alias: String,
    pub title: String,
    pub game_dir: String,
    pub data_dir: String,
    pub added_at: i64,
}

} // verus!
