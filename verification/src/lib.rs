//! Code indexing and symbol lookup for Rust, Python and JavaScript sources.
pub mod text;
pub mod symbols;
pub mod indexer;
pub mod server;
pub mod syntax;
pub mod search;
pub mod laws;
