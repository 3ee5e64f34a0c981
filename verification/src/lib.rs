//! Incremental spell-check query interpreter.
//!
//! Given a raw user-typed string, the library decides whether it names a
//! known dictionary and non-empty text, prepares the request for a
//! line-oriented spell-checking engine, decodes the engine's output into
//! structured completion records, and converts those records into ranked,
//! capped display entries.

pub mod config;
pub mod decoder;
pub mod format;
pub mod pipeline;
pub mod query;
pub mod readiness;
pub mod registry;
pub mod text;
