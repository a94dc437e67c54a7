//! Indexing a tree of Rust sources into code entities, pairing them with
//! vectors of two embedding spaces, and planning and merging the searches
//! of a vector index over those spaces.
pub mod entity;
pub mod syntax;
pub mod extract;
pub mod embed;
pub mod index;
pub mod error;
