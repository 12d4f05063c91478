use crate::error::{ApiResult, Error};
use crate::requests::Json;
use vstd::prelude::*;
use vstd::string::StringExecFns;

verus! {

/// A model that the service offers.
#[derive(Debug)]
pub struct Model {
    pub id: String,
    pub object: Option<String>,
    pub owned_by: Option<String>,
    pub permission: Vec<Permission>,
}

/// What may be done with a model.
#[derive(Debug)]
pub struct Permission {
    pub id: String,
    pub object: Option<String>,
    pub created: u64,
    pub allow_create_engine: bool,
    pub allow_sampling: bool,
    pub allow_logprobs: bool,
    pub allow_search_indices: bool,
    pub allow_view: bool,
    pub allow_fine_tuning: bool,
    pub organization: Option<String>,
    pub group: Option<String>,
    pub is_blocking: bool,
}

/// The list of models in the answer to a request for it: `data` is the
/// member of that name, where the answer has one. An answer without it is an
/// error of the service.
pub fn models_list(data: Option<Json>) -> (r: ApiResult<Json>)
    ensures
        match data {
            Some(list) => r == Ok::<Json, Error>(list),
            None => r matches Err(Error::ApiError(msg)) && msg@ == "No data"@,
        },
{
    match data {
        Some(list) => Ok(list),
        None => Err(Error::ApiError(String::from_str("No data"))),
    }
}

/// Where the model called `model_id` is described, below the address of the
/// service.
pub fn models_retrieve(model_id: &str) -> (sub_url: String)
    ensures
        sub_url@ == "models/"@ + model_id@,
{
    String::from_str("models/").concat(model_id)
}

} // verus!
