//! Semantic retrieval core for a personal note collection.
//!
//! Notes are split into bounded, overlap-aware text fragments, each fragment
//! is turned into a numeric vector by a remote embedding service, and the
//! vectors are kept in an embedded vector store so that a free-text query can
//! be matched against notes by meaning.  This crate holds the verified logic
//! of that pipeline: the chunking algorithm, the embedding configuration and
//! provider selection, the integrity checks on embedding responses, the retry
//! policy, and the decision kernels of the vector memory layer.  The
//! surrounding application performs the HTTP calls and the store I/O and
//! feeds their results back through these functions.

pub mod editor_mode;
pub mod embedding_client;
pub mod embedding_config;
pub mod memory;
pub mod notes_config;
pub mod text_chunker;
pub mod tools_analysis;
pub mod tools_reminders;
pub mod tools_tags;
pub mod tools_utility;
