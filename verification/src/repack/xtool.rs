//! The xtool precompressor, which recompresses already-compressed
//! streams so that the outer compression finds more to work with. Running
//! it (piping data through it) is outside the library.

use vstd::prelude::*;
use crate::path_utils::{join, path_join};

verus! {

/// A located xtool executable.
#[derive(Debug, Clone)]
pub struct Xtool {
    /// Path to the executable.
    pub exe_path: String,
}

impl Xtool {
    /// Where xtool is expected: `<bin_dir>/xtool/xtool` on this platform.
    pub fn expected_path(bin_dir: &str) -> (r: String)
        ensures
            r@ == path_join(path_join(bin_dir@, "xtool"@), "xtool"@),
    {
        let d = join(bin_dir, "xtool");
        join(d.as_str(), "xtool")
    }
}

} // verus!
