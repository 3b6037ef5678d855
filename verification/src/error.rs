//! The error taxonomy shared by every operation of the library.

use vstd::prelude::*;

verus! {

/// Why a request was refused, ordered roughly by who is at fault:
/// malformed input, missing identity, missing rights, missing target,
/// a conflicting claim, or an unexpected storage failure.
#[derive(Clone, Copy, Debug, PartialEq, Eq, Structural)]
pub enum ApiError {
    BadRequest,
    Unauthorized,
    Forbidden,
    NotFound,
    Conflict,
    Internal,
}

impl ApiError {
    /// The HTTP status code a transport layer reports for this error.
    pub fn status_code(&self) -> (code: u16)
        ensures
            code == match *self {
                ApiError::BadRequest => 400u16,
                ApiError::Unauthorized => 401u16,
                ApiError::Forbidden => 403u16,
                ApiError::NotFound => 404u16,
                ApiError::Conflict => 409u16,
                ApiError::Internal => 500u16,
            },
    {
        match *self {
            ApiError::BadRequest => 400,
            ApiError::Unauthorized => 401,
            ApiError::Forbidden => 403,
            ApiError::NotFound => 404,
            ApiError::Conflict => 409,
            ApiError::Internal => 500,
        }
    }
}

} // verus!
