//! Content-addressed scene archive codec.
//!
//! Converts an in-memory recording of 2D drawing commands, which embeds full
//! pixel buffers and font blobs inline, into a portable, deduplicated,
//! versioned container, and reconstructs an equivalent recording from it.

pub mod archive;
pub mod container;
pub mod font_writer;
pub mod hashing;
pub mod json;
pub mod json_manifest;
pub mod json_scene;
pub mod laws;
pub mod null_backend;
pub mod recording;
pub mod types;
