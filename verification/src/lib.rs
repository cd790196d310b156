//! Incremental web-font optimization engine.
//!
//! The crate scans project text for the set of characters in use, groups
//! candidate font files by base name, decides per font whether the cached
//! output is still valid, and drives subsetting of stale fonts into
//! compressed outputs, with a deterministic cache and manifest.

pub mod text;
pub mod digest;
pub mod strmap;
pub mod cache;
pub mod charset;
pub mod font;
pub mod group;
pub mod stage;
pub mod pipeline;
pub mod manifest;
pub mod publish;
