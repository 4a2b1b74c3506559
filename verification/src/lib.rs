//! Content-based removal of duplicate audio files.
//!
//! The library holds the decisions of the pipeline: where an embedded tag
//! block lies in a file and what remains without it, which of two files
//! with the same content survives, and in what order work is handed out and
//! accounted for. Reading, hashing threads and deleting are the caller's.

pub mod dedup_index;
pub mod fingerprint;
pub mod pool;
pub mod remove_tags;
pub mod scheduler;
