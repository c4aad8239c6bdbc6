pub mod no_config_error;
pub mod no_home_error;

use vstd::prelude::*;

verus! {

/// What a storage operation can report.
#[derive(Debug, PartialEq, Eq)]
pub enum TodoError {
    /// An operation targeted an identifier no record has.
    NotFound,
    /// The storage URL has a scheme outside the recognized set; carries that
    /// scheme's text.
    ConfigurationError(String),
    /// The selected backend cannot be constructed.
    BackendUnavailable,
    /// A file could not be opened, read or written.
    IoFailure,
    /// Persisted content could not be written back.
    SerializationFailure,
}

} // verus!
