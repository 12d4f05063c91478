use vstd::prelude::*;
use vstd::string::StringExecFns;

verus! {

/// What can go wrong with a request.
#[derive(Debug)]
pub enum Error {
    /// The service answered with an error.
    ApiError(String),
    /// The request did not get through.
    RequestError(String),
}

/// The result of a call to the service.
pub type ApiResult<T> = Result<T, Error>;

impl Error {
    /// The error as a line of text: its kind, then what it says.
    pub fn to_string(&self) -> (text: String)
        ensures
            text@ == match self {
                Error::ApiError(msg) => "API error: "@ + msg@,
                Error::RequestError(msg) => "Request error: "@ + msg@,
            },
    {
        match self {
            Error::ApiError(msg) => String::from_str("API error: ").concat(msg.as_str()),
            Error::RequestError(msg) => String::from_str("Request error: ").concat(msg.as_str()),
        }
    }
}

} // verus!
