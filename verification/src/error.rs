//! Crate-level error type.

use vstd::prelude::*;

verus! {

/// The outside I/O error type.
#[verifier::external_type_specification]
#[verifier::external_body]
pub struct ExIoError(std::io::Error);

/// All errors that can occur while running scampii.
#[derive(Debug)]
#[non_exhaustive]
pub enum ScampiiError {
    /// An I/O error from the terminal or file system.
    Io(std::io::Error),
}

impl From<std::io::Error> for ScampiiError {
    fn from(e: std::io::Error) -> (r: Self) {
        ScampiiError::Io(e)
    }
}

impl vstd::std_specs::convert::FromSpecImpl<std::io::Error> for ScampiiError {
    open spec fn obeys_from_spec() -> bool {
        true
    }

    open spec fn from_spec(v: std::io::Error) -> Self {
        ScampiiError::Io(v)
    }
}

} // verus!
