use vstd::prelude::*;

pub mod bench;
pub mod digits;
pub mod doc;
pub mod laws;
pub mod stream;
pub mod values;
pub mod whole;

verus! {

/// Why an extraction attempt failed.
#[derive(Clone, Copy, Debug, PartialEq, Eq, Structural)]
pub enum ExtractError {
    /// The input is not a well-formed document.
    Malformed,
    /// The document's `values` array is empty.
    NoValues,
}

impl ExtractError {
    /// A short description of the failure.
    pub fn message(&self) -> (r: &'static str)
        ensures
            *self == ExtractError::NoValues ==> r@ == "no values in seq"@,
            *self == ExtractError::Malformed ==> r@ == "malformed document"@,
    {
        match self {
            ExtractError::NoValues => "no values in seq",
            ExtractError::Malformed => "malformed document",
        }
    }
}

} // verus!
