//! A local memory store for agents: short texts kept with a confidence and
//! tags, found again by similarity of hashed-text vectors or by tag.

pub mod cli;
pub mod clock;
pub mod codec;
pub mod config;
pub mod context;
pub mod digest;
pub mod embeddings;
pub mod index;
pub mod laws;
pub mod memory;
pub mod order;
pub mod provider;
pub mod ranking;
pub mod recall;
pub mod scalar;
pub mod server;
pub mod store_spec;
pub mod tags;
pub mod text;
pub mod types;
