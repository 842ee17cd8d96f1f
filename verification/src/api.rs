//! How a refused request is answered: an HTTP status class and a message.
use vstd::prelude::*;

verus! {

/// The HTTP status with which a request is refused.
#[derive(Clone, Copy, Debug, PartialEq, Eq, Structural)]
pub enum ApiStatus {
    BadRequest,
    NotFound,
    Conflict,
    InternalServerError,
    BadGateway,
}

/// A refused request: its status and the message shown to the teacher.
#[derive(Debug)]
pub struct ApiFailure {
    pub status: ApiStatus,
    pub message: String,
}

/// Builds the refusal with `status` and `message`.
pub fn api_failure(status: ApiStatus, message: &str) -> (r: ApiFailure)
    ensures
        r.status == status,
        r.message@ == message@,
{
    ApiFailure { status, message: String::from_str(message) }
}

/// Whether `r` is a refusal with `status` and the text `message`.
pub open spec fn refused_with<T>(r: Result<T, ApiFailure>, status: ApiStatus, message: Seq<char>) -> bool {
    match r {
        Ok(_) => false,
        Err(e) => e.status == status && e.message@ == message,
    }
}

} // verus!
