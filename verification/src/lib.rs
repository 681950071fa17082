//! Extracts build-target metadata (name, default status, declared output
//! paths) from a Makefile-like text file: a line scanner with recursive
//! variable resolution, fixed-priority line classification, and a post-pass
//! name filter.

pub mod text;
pub mod types;
pub mod vars;
pub mod resolve;
pub mod parser;
pub mod filter;

pub use text::CharClass;
