//! Errors of the enrollment engine.

use vstd::prelude::*;

verus! {

/// What went wrong. The kinds stay distinct inside the library; a foreign
/// boundary may fold them into one code.
#[derive(Clone, Copy, Debug, PartialEq, Eq, Structural)]
pub enum Error {
    /// Malformed input, such as an unusable configuration or buffer.
    Invalid,
    /// The experiment catalog could not be fetched.
    CatalogFetch,
    /// The key-value store failed to read or write.
    Storage,
    /// The installation is not enrolled in the requested experiment.
    NotEnrolled,
}

} // verus!
