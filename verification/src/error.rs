//! The codec's uniform failure type: one kind, two alternative payloads — a
//! wrapped store error, or a descriptive message. Failures are terminal per
//! call and propagate immediately.

use vstd::prelude::*;

use crate::store::StoreError;

verus! {

#[derive(Debug, Copy, Clone, Eq, PartialEq)]
pub struct GarnishSerializationError {
    message: Option<&'static str>,
    err: Option<StoreError>,
}

impl GarnishSerializationError {
    pub closed spec fn spec_message(self) -> Option<&'static str> {
        self.message
    }

    pub closed spec fn spec_error(self) -> Option<StoreError> {
        self.err
    }

    /// Wraps a store failure.
    pub fn new(err: StoreError) -> (r: Self)
        ensures
            r.spec_error() == Some(err),
            r.spec_message() is None,
    {
        Self { message: None, err: Some(err) }
    }

    /// Carries a descriptive message instead of a store failure.
    pub fn from_message(message: &'static str) -> (r: Self)
        ensures
            r.spec_message() == Some(message),
            r.spec_error() is None,
    {
        Self { message: Some(message), err: None }
    }

    pub fn message(&self) -> (r: Option<&'static str>)
        ensures r == self.spec_message(),
    {
        self.message
    }

    pub fn error(&self) -> (r: Option<StoreError>)
        ensures r == self.spec_error(),
    {
        self.err
    }
}

/// Lifts a store failure into the uniform error, as an `Err`.
pub fn wrap_err<V>(e: StoreError) -> (r: Result<V, GarnishSerializationError>)
    ensures
        r.is_err(),
        r matches Err(g) ==> g.spec_error() == Some(e) && g.spec_message() is None,
{
    Err(GarnishSerializationError::new(e))
}

} // verus!
