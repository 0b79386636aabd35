//! Core logic of a password-gated HLS reverse proxy: request authorization,
//! content-type classification, playlist rewriting, and the per-endpoint
//! decision pipeline. All I/O (the HTTP server, the upstream fetch, template
//! rendering) lives outside this library; the functions here are pure and
//! fully specified.

pub mod config;
pub mod content_type;
pub mod gate;
pub mod pipeline;
pub mod rewrite;
pub mod text;
pub mod utf8;
