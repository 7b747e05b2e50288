//! The service's error taxonomy and its mapping to HTTP-style responses.
//!
//! Each variant keeps the response class the boundary layer answers with;
//! the boundary layer itself (response construction, logging) lives outside
//! this crate.

use vstd::prelude::*;
use vstd::string::StringExecFns;

verus! {

/// A per-request failure, translated by the boundary layer into a response.
#[derive(Debug, Clone)]
pub enum ServiceError {
    InternalServerError,
    BadRequest(String),
    Conflict(String),
    NoContent(String),
    ServiceUnavailable(String),
    UnprocessableEntity(String),
}

/// A fatal configuration fault: the process must not start with it.
#[derive(Debug, Clone, PartialEq, Eq, Structural)]
pub enum ConfigError {
    /// A block word does not compile into a word-boundary pattern.
    MalformedBlockWord,
    /// The trusted reverse-proxy address does not parse.
    BadProxyIp,
    /// The configured log level name is not known.
    BadLogLevel,
}

impl ServiceError {
    /// The HTTP status code class the variant answers with.
    pub fn status_code(&self) -> (code: u16)
        ensures
            code == self.spec_status_code(),
    {
        match self {
            ServiceError::InternalServerError => 500,
            ServiceError::BadRequest(_) => 400,
            ServiceError::Conflict(_) => 409,
            ServiceError::NoContent(_) => 204,
            ServiceError::ServiceUnavailable(_) => 503,
            ServiceError::UnprocessableEntity(_) => 422,
        }
    }

    pub open spec fn spec_status_code(&self) -> u16 {
        match self {
            ServiceError::InternalServerError => 500,
            ServiceError::BadRequest(_) => 400,
            ServiceError::Conflict(_) => 409,
            ServiceError::NoContent(_) => 204,
            ServiceError::ServiceUnavailable(_) => 503,
            ServiceError::UnprocessableEntity(_) => 422,
        }
    }

    /// The body the boundary layer answers with for this variant.
    pub open spec fn spec_response_body(&self) -> Seq<char> {
        match self {
            ServiceError::InternalServerError => "Internal Server Error. Please try later."@,
            ServiceError::BadRequest(m) => m@,
            ServiceError::Conflict(m) => m@,
            ServiceError::NoContent(m) => m@,
            ServiceError::ServiceUnavailable(m) => m@,
            ServiceError::UnprocessableEntity(m) => m@,
        }
    }

    pub fn response_body(&self) -> (body: String)
        ensures
            body@ == self.spec_response_body(),
    {
        match self {
            ServiceError::InternalServerError => String::from_str(
                "Internal Server Error. Please try later.",
            ),
            ServiceError::BadRequest(m) => m.clone(),
            ServiceError::Conflict(m) => m.clone(),
            ServiceError::NoContent(m) => m.clone(),
            ServiceError::ServiceUnavailable(m) => m.clone(),
            ServiceError::UnprocessableEntity(m) => m.clone(),
        }
    }
}

} // verus!
