use crate::error::{ApiResult, Error};
use crate::openai::Auth;
use vstd::prelude::*;
use vstd::string::StringExecFns;

verus! {

/// A JSON value.
pub type Json = serde_json::Value;

/// `serde_json::Value`. It is carried through; of what is inside only its
/// text is spoken of.
#[verifier::external_type_specification]
#[verifier::external_body]
pub struct ExValue(serde_json::Value);

/// What a JSON value holds, written out as compact JSON text.
pub uninterp spec fn json_text(value: serde_json::Value) -> Seq<char>;

/// Writes `value` out with its `Display` of `serde_json`, which gives compact
/// JSON text. The contract names the text and says nothing of what it is.
#[verifier::external_body]
fn json_to_string(value: &Json) -> (text: String)
    ensures
        text@ == json_text(*value),
{
    value.to_string()
}

/// How a request ended, as the transport tells it.
pub enum Reply {
    /// The service answered, and this is the body of its answer.
    Body(Json),
    /// The service answered with an error status, and this is what it said.
    Status(u16, Json),
    /// The request did not reach the service, and this is why.
    Transport(String),
}

/// The address that a request goes to: the address of the service and the
/// path below it, and the version as a query where one is named.
pub open spec fn request_path_text(api_url: Seq<char>, api_version: Seq<char>, sub_url: Seq<char>) -> Seq<
    char,
> {
    if api_version.len() == 0 {
        api_url + sub_url
    } else {
        api_url + sub_url + "?api-version="@ + api_version
    }
}

/// The address that a request for `sub_url` goes to.
pub fn request_path(api_url: &str, api_version: &str, sub_url: &str) -> (path: String)
    ensures
        path@ == request_path_text(api_url@, api_version@, sub_url@),
{
    if api_version.is_empty() {
        String::from_str(api_url).concat(sub_url)
    } else {
        String::from_str(api_url).concat(sub_url).concat("?api-version=").concat(api_version)
    }
}

/// The headers that every request carries, name and value: the content type,
/// the organization, empty where there is none, and the key as a bearer
/// token.
pub fn request_headers(auth: &Auth) -> (headers: Vec<(String, String)>)
    ensures
        headers@.len() == 3,
        headers@[0].0@ == "Content-Type"@,
        headers@[0].1@ == "application/json"@,
        headers@[1].0@ == "OpenAI-Organization"@,
        headers@[1].1@ == match auth.organization {
            Some(organization) => organization@,
            None => Seq::<char>::empty(),
        },
        headers@[2].0@ == "Authorization"@,
        headers@[2].1@ == "Bearer "@ + auth.api_key@,
{
    let organization = match &auth.organization {
        Some(organization) => organization.clone(),
        None => String::new(),
    };
    let mut headers: Vec<(String, String)> = Vec::new();
    headers.push((String::from_str("Content-Type"), String::from_str("application/json")));
    headers.push((String::from_str("OpenAI-Organization"), organization));
    headers.push(
        (String::from_str("Authorization"), String::from_str("Bearer ").concat(auth.api_key.as_str())),
    );
    headers
}

/// What the caller gets for a request that ended with `reply`: the body of
/// an answer; for an error status what the service said, as text, as an
/// error of the service; for a request that did not get through the reason,
/// as an error of the request.
pub fn deal_response(reply: Reply) -> (r: ApiResult<Json>)
    ensures
        match reply {
            Reply::Body(json) => r == Ok::<Json, Error>(json),
            Reply::Status(_, said) => r matches Err(Error::ApiError(msg)) && msg@ == json_text(said),
            Reply::Transport(reason) => r == Err::<Json, Error>(Error::RequestError(reason)),
        },
{
    match reply {
        Reply::Body(json) => Ok(json),
        Reply::Status(_, said) => Err(Error::ApiError(json_to_string(&said))),
        Reply::Transport(reason) => Err(Error::RequestError(reason)),
    }
}

} // verus!
