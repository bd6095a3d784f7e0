//! What is stored of the analysis: the text and the identity under which
//! each actor is kept in the vector store.

pub mod qdrant;
