use vstd::prelude::*;
use vstd::string::StringExecFns;

verus! {

/// Reported when no configuration file stands at the expected path; carries
/// that path's text.
#[derive(Debug, PartialEq, Eq)]
pub struct NoConfigError(pub String);

impl NoConfigError {
    /// The human-readable report, naming the path that was tried.
    pub fn message(&self) -> (r: String)
        ensures
            r@ == "No config file found at "@ + self.0@,
    {
        let mut out = String::new();
        out.append("No config file found at ");
        out.append(self.0.as_str());
        out
    }
}

} // verus!
