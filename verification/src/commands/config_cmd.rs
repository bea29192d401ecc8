//! Plain-value helpers of the `config` subcommand.

use vstd::prelude::*;
use crate::text::str_eq;

verus! {

/// The help line listing the valid values of a known key; empty for
/// other keys.
pub open spec fn value_description(key: Seq<char>) -> Seq<char> {
    if key == "hash.algorithm"@ {
        "options: xxhash (fast, non-crypto) | blake3 (crypto, slower)"@
    } else if key == "hash.threads"@ {
        "0 = auto (use all CPUs) | N = exact thread count"@
    } else if key == "hash.parallel"@ {
        "true = parallel hashing (SSD) | false = sequential (HDD)"@
    } else if key == "snapshot.auto_gc"@ {
        "true = auto gc after snap | false = manual gc only"@
    } else if key == "snapshot.lock_retry"@ {
        "number of retries on locked files (0 = no retry)"@
    } else if key == "compact.algorithm"@ {
        "options: lzx (best ratio) | xpress4k | xpress8k | xpress16k | ntfs (LZNT1) | none"@
    } else if key == "compact.threads"@ {
        "0 = auto (use all CPUs) | N = exact thread count"@
    } else if key == "compact.auto_pause"@ {
        "true = pause background compact when a tracked game is running | false = never pause"@
    } else {
        Seq::empty()
    }
}

/// A human-readable description of the valid values for a config key.
pub fn config_value_description(key: &str, current_val: &str) -> (r: String)
    ensures
        r@ == value_description(key@),
{
    let _ = current_val;
    if str_eq(key, "hash.algorithm") {
        String::from_str("options: xxhash (fast, non-crypto) | blake3 (crypto, slower)")
    } else if str_eq(key, "hash.threads") {
        String::from_str("0 = auto (use all CPUs) | N = exact thread count")
    } else if str_eq(key, "hash.parallel") {
        String::from_str("true = parallel hashing (SSD) | false = sequential (HDD)")
    } else if str_eq(key, "snapshot.auto_gc") {
        String::from_str("true = auto gc after snap | false = manual gc only")
    } else if str_eq(key, "snapshot.lock_retry") {
        String::from_str("number of retries on locked files (0 = no retry)")
    } else if str_eq(key, "compact.algorithm") {
        String::from_str("options: lzx (best ratio) | xpress4k | xpress8k | xpress16k | ntfs (LZNT1) | none")
    } else if str_eq(key, "compact.threads") {
        String::from_str("0 = auto (use all CPUs) | N = exact thread count")
    } else if str_eq(key, "compact.auto_pause") {
        String::from_str("true = pause background compact when a tracked game is running | false = never pause")
    } else {
        String::new()
    }
}

} // verus!
