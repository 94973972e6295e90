//! The failures that a request can end in, and how each is reported.
use vstd::prelude::*;

verus! {

/// Storage failed; reported without detail.
#[derive(Clone, Copy, Debug, PartialEq, Eq, Structural)]
pub struct InternalServerError;

/// No such version, no version satisfying a requirement, or no blob.
#[derive(Clone, Copy, Debug, PartialEq, Eq, Structural)]
pub struct NotFound;

/// A malformed version or requirement text.
#[derive(Clone, Copy, Debug, PartialEq, Eq, Structural)]
pub struct BadRequest;

/// A publish without a known key.
#[derive(Clone, Copy, Debug, PartialEq, Eq, Structural)]
pub struct Unauthorized;

impl InternalServerError {
    pub fn status_code(&self) -> (r: u16)
        ensures
            r == 500,
    {
        500
    }

    pub fn message(&self) -> (r: &'static str)
        ensures
            r@ == "Internal Server Error"@,
    {
        "Internal Server Error"
    }
}

impl BadRequest {
    pub fn status_code(&self) -> (r: u16)
        ensures
            r == 400,
    {
        400
    }

    pub fn message(&self) -> (r: &'static str)
        ensures
            r@ == "Bad Request"@,
    {
        "Bad Request"
    }
}

impl NotFound {
    pub fn status_code(&self) -> (r: u16)
        ensures
            r == 404,
    {
        404
    }

    pub fn message(&self) -> (r: &'static str)
        ensures
            r@ == "Not Found"@,
    {
        "Not Found"
    }
}

impl Unauthorized {
    pub fn status_code(&self) -> (r: u16)
        ensures
            r == 401,
    {
        401
    }

    pub fn message(&self) -> (r: &'static str)
        ensures
            r@ == "Unauthorized"@,
    {
        "Unauthorized"
    }
}

} // verus!
