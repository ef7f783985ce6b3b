use vstd::prelude::*;

verus! {

/// Which backend turns text into a vector.
#[derive(Clone, Debug)]
pub enum EmbeddingModel {
    /// Hosted model, stood in for by a digest of the text.
    HuggingFace { model_name: String },
    /// Remote embeddings endpoint, reached with an API key.
    OpenAI { api_key: String, model: String },
    /// Local model, stood in for by character statistics of the text.
    Local { model_path: String },
}

/// How a query is answered.
#[derive(Clone, Copy, Debug, PartialEq, Eq, Structural)]
pub enum RAGMode {
    FineTunedOnly,
    FineTunedWithRAG,
    BaseWithRAG,
}

/// The bit pattern of the `f32` value 0.3, the default acceptance threshold.
pub const DEFAULT_THRESHOLD_BITS: u32 = 0x3e99_999a;

pub const DEFAULT_CHUNK_SIZE: usize = 200;

pub const DEFAULT_CHUNK_OVERLAP: usize = 50;

pub const DEFAULT_TOP_K: usize = 5;

/// Configuration of ingestion and retrieval.
///
/// `similarity_threshold` holds the bit pattern of an `f32` similarity; a result
/// is kept when its score lies strictly above it.
#[derive(Clone, Debug)]
pub struct RAGConfig {
    pub embedding_model: EmbeddingModel,
    pub mode: RAGMode,
    pub chunk_size: usize,
    pub chunk_overlap: usize,
    pub top_k: usize,
    pub similarity_threshold: u32,
}

impl Default for RAGConfig {
    fn default() -> (r: RAGConfig)
        ensures
            r.embedding_model is HuggingFace,
            r.embedding_model->HuggingFace_model_name@ == "sentence-transformers/all-MiniLM-L6-v2"@,
            r.mode == RAGMode::BaseWithRAG,
            r.chunk_size == DEFAULT_CHUNK_SIZE,
            r.chunk_overlap == DEFAULT_CHUNK_OVERLAP,
            r.top_k == DEFAULT_TOP_K,
            r.similarity_threshold == DEFAULT_THRESHOLD_BITS,
    {
        RAGConfig {
            embedding_model: EmbeddingModel::HuggingFace {
                model_name: String::from_str("sentence-transformers/all-MiniLM-L6-v2"),
            },
            mode: RAGMode::BaseWithRAG,
            chunk_size: DEFAULT_CHUNK_SIZE,
            chunk_overlap: DEFAULT_CHUNK_OVERLAP,
            top_k: DEFAULT_TOP_K,
            similarity_threshold: DEFAULT_THRESHOLD_BITS,
        }
    }
}

} // verus!
