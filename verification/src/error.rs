//! The two error shapes of the library.
//!
//! Exactly one error condition exists: the input contained at least one code
//! point outside the ASCII range. `FromSourceError` hands the rejected input
//! back to the caller; `StringFromStrError` is a zero-data marker.

use vstd::prelude::*;

verus! {

/// Marker error for a borrowed-text conversion that keeps no data.
#[derive(Debug, Copy, Clone, PartialEq, Eq, Hash)]
pub struct StringFromStrError;

impl StringFromStrError {
    /// A human-readable description of the failure.
    pub fn description(&self) -> (r: &'static str)
        ensures
            r@ == "str does contain non us-ascii chars and can not be converted"@,
    {
        "str does contain non us-ascii chars and can not be converted"
    }
}

/// Error that carries the rejected input of shape `S`, so the caller can
/// recover or report it without losing the original data.
#[derive(Debug, Clone, PartialEq, Eq, Hash)]
pub struct FromSourceError<S> {
    source: S,
}

impl<S> FromSourceError<S> {
    /// The rejected input, as contracts see it.
    pub closed spec fn spec_source(&self) -> S {
        self.source
    }

    /// Wraps a rejected input.
    pub fn new(source: S) -> (r: Self)
        ensures
            r.spec_source() == source,
    {
        FromSourceError { source }
    }

    /// Borrows the rejected input.
    pub fn source(&self) -> (r: &S)
        ensures
            *r == self.spec_source(),
    {
        &self.source
    }

    /// Reclaims ownership of the rejected input.
    pub fn into_source(self) -> (r: S)
        ensures
            r == self.spec_source(),
    {
        self.source
    }

    /// A human-readable description of the failure.
    pub fn description(&self) -> (r: &'static str)
        ensures
            r@ == "source contains non us-ascii chars"@,
    {
        "source contains non us-ascii chars"
    }
}

impl<'a> FromSourceError<&'a str> {
    /// The rejected input as a text slice.
    pub fn source_str(&self) -> (r: &'a str)
        ensures
            r@ == self.spec_source()@,
    {
        self.source
    }
}

impl FromSourceError<String> {
    /// The rejected input as a text slice.
    pub fn source_str(&self) -> (r: &str)
        ensures
            r@ == self.spec_source()@,
    {
        self.source.as_str()
    }
}

} // verus!
