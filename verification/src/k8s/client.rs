//! What the Kubernetes API client decides about an answer.
use vstd::prelude::*;

verus! {

/// The error the Kubernetes API answers with.
#[derive(Debug, Clone)]
pub struct ApiError {
    pub status: String,
    pub message: Option<String>,
    pub reason: Option<String>,
    pub code: u16,
}

/// Why a request to the Kubernetes API failed.
#[derive(Debug, Clone)]
pub enum RequestError {
    /// The API answered with an error it described
    Api(ApiError),
    /// The API answered with an error status and a body that describes no error; the
    /// message of the HTTP error
    Http(String),
}

/// The error of a request that the API answered with an error status: the error the
/// body describes, or else the HTTP error.
pub fn request_failure(api_error: Option<ApiError>, http_error: String) -> (r: RequestError)
    ensures
        match api_error {
            Some(e) => r == RequestError::Api(e),
            None => r == RequestError::Http(http_error),
        },
{
    match api_error {
        Some(e) => RequestError::Api(e),
        None => RequestError::Http(http_error),
    }
}

} // verus!
