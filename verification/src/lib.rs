//! A verified core for a local music catalog: extension-based media
//! classification, a newline-delimited JSON record store with corruption
//! repair, incremental scan planning with mtime/size staleness checks, and a
//! two-pass (exact, then partial) tag query resolver with ambiguity
//! clarification.

pub mod paths;
pub mod text;
pub mod track;
pub mod classify;
pub mod codec;
pub mod store;
pub mod scan;
pub mod query;
pub mod config;
pub mod browse;
pub mod player;
