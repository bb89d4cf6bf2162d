//! A live, in-memory view of usage records scattered across append-only log
//! files, with aggregate queries over it: cost totals, rolling billing
//! windows and per-session summaries.
//!
//! The record-file grammar (`json`), the price table (`pricing`), the three
//! aggregation passes (`parser`), the cache (`cache`), the time filtering
//! and the query surface (`commands`) and the watcher's decisions
//! (`watcher`) are verified; reading files, the clock, the local calendar
//! and Unicode lowercasing enter through a handful of narrow trusted
//! declarations (`clock`, `text`).

pub mod types;
pub mod text;
pub mod json;
pub mod pricing;
pub mod clock;
pub mod parser;
pub mod cache;
pub mod commands;
pub mod watcher;
