//! The manifest of a `.gim` archive: game, compression settings,
//! snapshot chain with its files, and the content-store objects with
//! their offsets. It is stored as JSON; (de)serializing is outside the
//! library.

use vstd::prelude::*;
use crate::text::str_eq;

verus! {

#[verifier::external_type_specification]
#[verifier::external_body]
pub struct ExJsonValue(serde_json::Value);

#[derive(Debug, Clone)]
pub struct GimGameInfo {
    pub title: String,
    pub alias: String,
}

#[derive(Debug, Clone)]
pub struct GimCompressionInfo {
    /// Profile name: `fast`, `balanced` or `max`.
    pub profile: String,
    pub level: u32,
    /// xtool codecs used.
    pub codecs: Vec<String>,
    pub chunk_size: String,
    pub xtool_version: String,
}

#[derive(Debug, Clone)]
pub struct GimFile {
    pub path: String,
    pub hash: String,
    pub size: i64,
    pub mtime: i64,
}

#[derive(Debug, Clone)]
pub struct GimSnapshot {
    pub id: String,
    pub parent: Option<String>,
    pub timestamp: i64,
    pub message: Option<String>,
    pub file_count: i64,
    pub added_size: i64,
    /// Data file name (e.g. `original.bin`).
    pub data_file: String,
    pub files: Vec<GimFile>,
}

#[derive(Debug, Clone)]
pub struct GimObject {
    pub hash: String,
    /// Offset into the objects file (precompressed data).
    pub offset: u64,
    pub compressed_size: u64,
    pub orig_size: u64,
}

#[derive(Debug, Clone)]
pub struct GimObjectsFile {
    pub file: String,
    pub entries: Vec<GimObject>,
}

/// The top-level manifest.
#[derive(Debug)]
pub struct GimManifest {
    /// Format version (currently 1).
    pub version: u32,
    pub game: GimGameInfo,
    /// The game's config, as JSON.
    pub config: serde_json::Value,
    pub compression: GimCompressionInfo,
    /// One entry per snapshot in the chain.
    pub snapshots: Vec<GimSnapshot>,
    pub objects: GimObjectsFile,
}

/// Index of the first snapshot with id `id`, or the length.
pub open spec fn snapshot_index(ss: Seq<GimSnapshot>, id: Seq<char>) -> int
    decreases ss.len(),
{
    if ss.len() == 0 {
        0
    } else if ss[0].id@ == id {
        0
    } else {
        1 + snapshot_index(ss.drop_first(), id)
    }
}

proof fn lemma_snapshot_index_at(ss: Seq<GimSnapshot>, id: Seq<char>, i: int)
    requires
        0 <= i <= ss.len(),
        forall|j: int| 0 <= j < i ==> (#[trigger] ss[j]).id@ != id,
        i == ss.len() || ss[i].id@ == id,
    ensures
        snapshot_index(ss, id) == i,
    decreases ss.len(),
{
    if ss.len() > 0 && i > 0 {
        assert forall|j: int| 0 <= j < i - 1 implies (#[trigger] ss.drop_first()[j]).id@ != id by {
            assert(ss.drop_first()[j] == ss[j + 1]);
        }
        lemma_snapshot_index_at(ss.drop_first(), id, i - 1);
    }
}

impl GimManifest {
    /// The first snapshot with id `id`.
    pub fn find_snapshot(&self, id: &str) -> (r: Option<&GimSnapshot>)
        ensures
            ({
                let i = snapshot_index(self.snapshots@, id@);
                if i < self.snapshots@.len() {
                    r == Some(&self.snapshots@[i])
                } else {
                    r is None
                }
            }),
    {
        let mut i: usize = 0;
        while i < self.snapshots.len()
            invariant
                i <= self.snapshots@.len(),
                forall|j: int| 0 <= j < i ==> (#[trigger] self.snapshots@[j]).id@ != id@,
            decreases self.snapshots@.len() - i,
        {
            if str_eq(self.snapshots[i].id.as_str(), id) {
                proof {
                    lemma_snapshot_index_at(self.snapshots@, id@, i as int);
                }
                return Some(&self.snapshots[i]);
            }
            i = i + 1;
        }
        proof {
            lemma_snapshot_index_at(self.snapshots@, id@, i as int);
        }
        None
    }
}

} // verus!
