//! Versioned file attachments backed by a content-addressed blob store.
//!
//! The crate keeps the bookkeeping of a blob service (pending uploads,
//! deduplicated permanent blobs, a blacklist of forbidden digests, and a
//! previewable hard deletion) together with the append-only revision chain
//! of the files that reference those blobs.
pub mod maybe;
pub mod digest;
pub mod error;
pub mod name;
pub mod model;
pub mod blob;
pub mod file;
pub mod hard_delete;
pub mod score;
pub mod rules;
