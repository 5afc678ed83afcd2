use vstd::prelude::*;
use vstd::string::StringExecFns;

verus! {

/// The frontmost-application lookup for platforms without a native hook:
/// always the sentinel name. A platform integration that can resolve the
/// real owner of focus replaces this answer outside the library.
pub fn get_frontmost_app() -> (r: String)
    ensures
        r@ == "Unknown"@,
{
    "Unknown".to_owned()
}

} // verus!
