//! Checks of the `branch` subcommand.

use vstd::prelude::*;
use crate::commands::{all_name_chars, only_name_chars};
use crate::error::GError;
use crate::text::{owned, push_str, str_eq};

verus! {

/// A branch name follows the rule of snapshot ids: not empty, not
/// starting with a dot, made of ASCII letters, digits, `_`, `-` and `.`.
pub open spec fn valid_branch_name(name: Seq<char>) -> bool {
    name.len() > 0 && name[0] != '.' && all_name_chars(name)
}

/// Checks the name of a branch to create; a bad one gives
/// `invalid branch "<name>"`.
pub fn validate_branch_name(name: &str) -> (r: Result<(), GError>)
    ensures
        valid_branch_name(name@) ==> r is Ok,
        !valid_branch_name(name@) ==> (r matches Err(GError::Other(m)) && m@ == "invalid branch \""@ + name@ + "\""@),
{
    if name.unicode_len() == 0 || name.get_char(0) == '.' || !only_name_chars(name) {
        let mut m = owned("invalid branch \"");
        push_str(&mut m, name);
        push_str(&mut m, "\"");
        return Err(GError::Other(m));
    }
    Ok(())
}

/// `current` names the branch `name`.
pub open spec fn is_current(current: Option<&str>, name: Seq<char>) -> bool {
    match current {
        Some(c) => c@ == name,
        None => false,
    }
}

/// Whether a branch may be deleted: never `main`, only an existing one,
/// and never the current one.
pub fn check_branch_delete(name: &str, exists: bool, current: Option<&str>, alias: &str) -> (r: Result<(), GError>)
    ensures
        name@ == "main"@ ==> r matches Err(GError::CannotDeleteMainBranch),
        name@ != "main"@ && !exists ==> (r matches Err(GError::BranchNotFound(n, a)) && n@ == name@ && a@ == alias@),
        name@ != "main"@ && exists && is_current(current, name@) ==> (r matches Err(
            GError::CannotDeleteCurrentBranch(n),
        ) && n@ == name@),
        name@ != "main"@ && exists && !is_current(current, name@) ==> r is Ok,
{
    if str_eq(name, "main") {
        return Err(GError::CannotDeleteMainBranch);
    }
    if !exists {
        return Err(GError::BranchNotFound(owned(name), owned(alias)));
    }
    match current {
        Some(c) => {
            if str_eq(c, name) {
                return Err(GError::CannotDeleteCurrentBranch(owned(name)));
            }
        },
        None => {},
    }
    Ok(())
}

} // verus!
