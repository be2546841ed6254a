//! A key-value cache with time-to-live expiry.
//!
//! `store` holds the in-process backend: a mapping from string keys to values
//! with an absolute expiry instant, read lazily and swept on demand; `laws`
//! states what its operations guarantee together. `codec` frames values for a
//! networked backend that enforces expiry itself, and `config` decides at
//! start-up which backend a process runs.
pub mod codec;
pub mod config;
pub mod item;
pub mod laws;
pub mod store;
