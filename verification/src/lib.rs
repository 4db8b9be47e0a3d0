//! Verified building blocks from a collection of Rust lessons: a key-value
//! command service with notification hooks, an in-memory store, the text
//! layout of a small grep tool, and string helpers.
pub mod pb;
pub mod storage;
pub mod command_service;
pub mod service;
pub mod shared_service;
pub mod rgrep;
pub mod text;
