//! The error type shared by the capture lifecycle and the pipeline
//! configuration: a message describing what was misused or refused.

use vstd::prelude::*;

verus! {

/// Error for known failure behaviour: lifecycle misuse and rejected
/// configuration values.
#[derive(Debug, Clone, Copy)]
pub struct ENguyenError {
    pub message: &'static str,
}

impl ENguyenError {
    /// The stored description, for callers that report the failure.
    pub fn message(&self) -> (r: &'static str)
        ensures
            r == self.message,
    {
        self.message
    }
}

impl From<&'static str> for ENguyenError {
    fn from(s: &'static str) -> (r: ENguyenError) {
        ENguyenError { message: s }
    }
}

impl vstd::std_specs::convert::FromSpecImpl<&'static str> for ENguyenError {
    open spec fn obeys_from_spec() -> bool {
        true
    }

    open spec fn from_spec(s: &'static str) -> ENguyenError {
        ENguyenError { message: s }
    }
}

} // verus!
