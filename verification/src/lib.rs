//! Verified core of a CSV-to-database financial transaction importer.
//!
//! The crate parses locale-formatted currency text into exact fixed-point
//! values, decodes raw CSV rows into typed transaction records, groups
//! records by account to find per-account resume points, and plans chunked,
//! conflict-safe batch insertion with row-level failure isolation.  All
//! decision logic is verified; database and file I/O live outside the
//! library and drive it through plain values.

pub mod config;
pub mod currency;
pub mod dates;
pub mod db;
pub mod pipeline;
pub mod record;
pub mod text;
