pub mod embeddings;
pub mod images;
pub mod models;

use vstd::prelude::*;

verus! {

/// Where the models are listed.
pub const MODELS_LIST: &'static str = "models";

/// Below which one model is described.
pub const MODELS_RETRIEVE: &'static str = "models/";

/// Where completions are made.
pub const COMPLETION_CREATE: &'static str = "completions";

/// Where chat completions are made.
pub const CHAT_COMPLETION_CREATE: &'static str = "chat/completions";

/// Where edits are made.
pub const EDIT_CREATE: &'static str = "edits";

/// Where embeddings are made.
pub const EMBEDDINGS_CREATE: &'static str = "embeddings";

/// Where images are made.
pub const IMAGES_CREATE: &'static str = "images/generations";

/// Where images are edited.
pub const IMAGES_EDIT: &'static str = "images/edits";

/// Where variations of an image are made.
pub const IMAGES_VARIATIONS: &'static str = "images/variations";

/// How many tokens a call used.
#[derive(Debug)]
pub struct Usage {
    pub prompt_tokens: Option<u32>,
    pub completion_tokens: Option<u32>,
    pub total_tokens: Option<u32>,
}

/// One of the answers to a call.
#[derive(Debug)]
pub struct Choice {
    pub text: Option<String>,
    pub index: u32,
    pub logprobs: Option<String>,
    pub finish_reason: Option<String>,
    pub message: Option<Message>,
}

/// One message of a conversation.
#[derive(Debug)]
pub struct Message {
    pub role: Role,
    pub content: String,
}

/// Who speaks in a message.
#[derive(Debug)]
pub enum Role {
    System,
    Assistant,
    User,
}

impl Role {
    /// The name of the role as it is written in a request: in lower case.
    pub fn as_str(&self) -> (name: &'static str)
        ensures
            name@ == match self {
                Role::System => "system"@,
                Role::Assistant => "assistant"@,
                Role::User => "user"@,
            },
    {
        match self {
            Role::System => "system",
            Role::Assistant => "assistant",
            Role::User => "user",
        }
    }
}

} // verus!
