use vstd::prelude::*;

verus! {

/// Failures of the library's operations.
#[derive(Clone, Copy, Debug, PartialEq, Eq, Structural)]
pub enum RagError {
    /// The chunk overlap is not smaller than the chunk size.
    InvalidChunkConfig,
    /// A document with the same id is already stored.
    DuplicateDocument,
    /// No stored document has the given id.
    UnknownDocument,
    /// The document already has chunks.
    ChunksExist,
    /// Chunk texts, embeddings and ids differ in number.
    BatchMismatch,
    /// The query holds no word.
    EmptyQuery,
}

/// The sentence that describes a failure.
pub open spec fn error_text(e: RagError) -> Seq<char> {
    match e {
        RagError::InvalidChunkConfig => "chunk overlap must be smaller than chunk size"@,
        RagError::DuplicateDocument => "a document with this id already exists"@,
        RagError::UnknownDocument => "no document with this id exists"@,
        RagError::ChunksExist => "the document already has chunks"@,
        RagError::BatchMismatch => "chunk texts, embeddings and ids differ in number"@,
        RagError::EmptyQuery => "the query is empty"@,
    }
}

impl RagError {
    /// A sentence describing the failure.
    pub fn message(&self) -> (r: String)
        ensures
            r@ == error_text(*self),
            r@.len() > 0,
    {
        let s = match self {
            RagError::InvalidChunkConfig => "chunk overlap must be smaller than chunk size",
            RagError::DuplicateDocument => "a document with this id already exists",
            RagError::UnknownDocument => "no document with this id exists",
            RagError::ChunksExist => "the document already has chunks",
            RagError::BatchMismatch => "chunk texts, embeddings and ids differ in number",
            RagError::EmptyQuery => "the query is empty",
        };
        proof {
            reveal_strlit("chunk overlap must be smaller than chunk size");
            reveal_strlit("a document with this id already exists");
            reveal_strlit("no document with this id exists");
            reveal_strlit("the document already has chunks");
            reveal_strlit("chunk texts, embeddings and ids differ in number");
            reveal_strlit("the query is empty");
        }
        String::from_str(s)
    }
}

} // verus!
