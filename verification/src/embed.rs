//! The configuration of the Ollama embedding backend.
//!
//! The HTTP exchange with Ollama is the program's; the library holds where
//! to send requests, which model to ask for and the dimension it yields.
use vstd::prelude::*;

verus! {

/// What an embedder is: where it sends requests, its model and dimension.
pub struct EmbedderSettings {
    pub base_url: Seq<char>,
    pub model: Seq<char>,
    pub dims: usize,
}

/// An Ollama embedding client's settings.
pub struct OllamaEmbedder {
    base_url: String,
    model: String,
    dims: usize,
}

/// The path of Ollama's embedding endpoint, below the base URL.
pub const EMBEDDINGS_PATH: &'static str = "/api/embeddings";

/// The base URL of a local Ollama.
pub const LOCAL_OLLAMA_URL: &'static str = "http://localhost:11434";

/// The light embedding model.
pub const NOMIC_MODEL: &'static str = "nomic-embed-text";

/// The dimension of the light model's embeddings.
pub const NOMIC_DIMS: usize = 768;

impl View for OllamaEmbedder {
    type V = EmbedderSettings;

    closed spec fn view(&self) -> EmbedderSettings {
        EmbedderSettings { base_url: self.base_url@, model: self.model@, dims: self.dims }
    }
}

impl OllamaEmbedder {
    /// An embedder that asks `model` at `base_url` for `dims`-dimensional
    /// embeddings.
    pub fn new(base_url: &str, model: &str, dims: usize) -> (e: OllamaEmbedder)
        ensures
            e@ == (EmbedderSettings { base_url: base_url@, model: model@, dims }),
    {
        OllamaEmbedder { base_url: base_url.to_owned(), model: model.to_owned(), dims }
    }

    /// `nomic-embed-text` at a local Ollama, with 768 dimensions.
    pub fn default_nomic() -> (e: OllamaEmbedder)
        ensures
            e@ == (EmbedderSettings {
                base_url: LOCAL_OLLAMA_URL@,
                model: NOMIC_MODEL@,
                dims: NOMIC_DIMS,
            }),
    {
        Self::new(LOCAL_OLLAMA_URL, NOMIC_MODEL, NOMIC_DIMS)
    }

    /// The model that produces the embeddings.
    pub fn model_id(&self) -> (m: &str)
        ensures
            m@ == self@.model,
    {
        self.model.as_str()
    }

    /// The dimension of the embeddings.
    pub fn dims(&self) -> (d: usize)
        ensures
            d == self@.dims,
    {
        self.dims
    }

    /// The URL to which embedding requests are posted.
    pub fn embeddings_url(&self) -> (url: String)
        ensures
            url@ == self@.base_url + EMBEDDINGS_PATH@,
    {
        let mut url = self.base_url.clone();
        url.append(EMBEDDINGS_PATH);
        url
    }
}

} // verus!
