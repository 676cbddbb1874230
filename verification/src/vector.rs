//! Semantic search over vector embeddings: a placeholder. No
//! embedding store is wired up yet, so the search finds nothing.

use vstd::prelude::*;

use crate::rule::Rule;

verus! {

/// A failure of the semantic search subsystem.
#[derive(Debug)]
pub enum VectorSearchError {
    /// No vector database is configured.
    NotConfigured,
    /// An embedding could not be generated.
    EmbeddingError(String),
    /// The vector search itself failed.
    SearchError(String),
}

/// The diagnostic text of each failure.
pub open spec fn vector_error_text(e: VectorSearchError) -> Seq<char> {
    match e {
        VectorSearchError::NotConfigured => ("Vector database not configured")@,
        VectorSearchError::EmbeddingError(m) => ("Embedding generation failed: ")@ + m@,
        VectorSearchError::SearchError(m) => ("Search failed: ")@ + m@,
    }
}

impl VectorSearchError {
    /// The diagnostic text of the failure.
    pub fn message(&self) -> (r: String)
        ensures
            r@ == vector_error_text(*self),
    {
        match self {
            VectorSearchError::NotConfigured => String::from_str(
                "Vector database not configured",
            ),
            VectorSearchError::EmbeddingError(m) => {
                let mut s = String::from_str("Embedding generation failed: ");
                s.append(m.as_str());
                s
            },
            VectorSearchError::SearchError(m) => {
                let mut s = String::from_str("Search failed: ");
                s.append(m.as_str());
                s
            },
        }
    }
}

/// Semantic search by meaning. Until an embedding store is wired up
/// it finds nothing, whatever the query.
pub fn semantic_search(query: &str) -> (r: Result<Vec<Rule>, VectorSearchError>)
    ensures
        r matches Ok(v) && v@.len() == 0,
{
    let _ = query;
    Ok(Vec::new())
}

} // verus!
