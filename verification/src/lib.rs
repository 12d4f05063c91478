//! A client for the OpenAI API whose rules are verified: how a multipart
//! form is written out and served piece by piece, how a client is built from
//! its settings, where a request goes and what a reply means.

pub mod apis;
pub mod error;
pub mod mpart;
pub mod openai;
pub mod requests;

pub use apis::{Choice, Message, Role, Usage};
pub use error::{ApiResult, Error};
pub use openai::{Auth, Credentials, OpenAI, OpenAIBuilder};
pub use requests::Json;
