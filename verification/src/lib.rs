//! Format-aware file prefetching: the verified core.
//!
//! The library parses GGUF model headers into a layout of logical layers,
//! turns any format's layout into prioritised byte-range segments, and holds
//! the decisions of the prefetch engine (strategy, memory budget, progress,
//! cache residency accounting), of Ollama model discovery and of the
//! configuration's defaults.
pub mod cache_status;
pub mod config;
pub mod discovery;
pub mod engine;
pub mod gguf;
pub mod gguf_provider;
pub mod order;
pub mod paths;
pub mod platform;
pub mod progress;
pub mod providers;
pub mod security;
pub mod strategy;
pub mod strmap;
pub mod text;
