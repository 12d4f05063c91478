use vstd::prelude::*;

verus! {

/// A request for embeddings.
#[derive(Debug)]
pub struct EmbeddingsBody {
    /// The model to use.
    pub model: String,
    /// The texts to embed.
    pub input: Vec<String>,
    /// Who the request is made for.
    pub user: Option<String>,
}

} // verus!
