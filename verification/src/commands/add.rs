//! Checks on the arguments of `add`.

use vstd::prelude::*;
use crate::commands::{all_name_chars, only_name_chars};
use crate::error::GError;
use crate::text::push_str;

verus! {

/// The message `add` refuses an alias with, or `None` for a valid alias:
/// not empty, not starting with a dot, and made of ASCII letters, digits,
/// `_`, `-` and `.`.
pub open spec fn alias_problem(a: Seq<char>) -> Option<Seq<char>> {
    if a.len() == 0 {
        Some("alias cannot be empty"@)
    } else if a[0] == '.' {
        Some("alias \""@ + a + "\" cannot start with a dot"@)
    } else if !all_name_chars(a) {
        Some("alias \""@ + a + "\" contains invalid characters"@)
    } else {
        None
    }
}

/// Checks an alias; a refused one gives `GError::Other` with the reason.
pub fn validate_alias(alias: &str) -> (r: Result<(), GError>)
    ensures
        match alias_problem(alias@) {
            None => r is Ok,
            Some(m) => r matches Err(GError::Other(t)) && t@ == m,
        },
{
    let n = alias.unicode_len();
    if n == 0 {
        return Err(GError::Other(String::from_str("alias cannot be empty")));
    }
    if alias.get_char(0) == '.' {
        let mut m = String::from_str("alias \"");
        push_str(&mut m, alias);
        push_str(&mut m, "\" cannot start with a dot");
        return Err(GError::Other(m));
    }
    if !only_name_chars(alias) {
        let mut m = String::from_str("alias \"");
        push_str(&mut m, alias);
        push_str(&mut m, "\" contains invalid characters");
        return Err(GError::Other(m));
    }
    Ok(())
}

} // verus!
