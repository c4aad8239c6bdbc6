use vstd::prelude::*;
use vstd::string::StringExecFns;

verus! {

/// Reported when the home directory cannot be determined.
#[derive(Debug, Hash, PartialEq, Eq, Clone, Copy, PartialOrd, Ord)]
pub struct NoHomeError;

impl NoHomeError {
    /// The human-readable report.
    pub fn message(&self) -> (r: String)
        ensures
            r@ == "Unable to find home directory"@,
    {
        String::from_str("Unable to find home directory")
    }
}

} // verus!
