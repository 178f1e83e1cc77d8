//! A verified core for a photo-import sorter.
//!
//! Media files are classified by their capture timestamp and relocated into a
//! `year/month/day` directory tree. The library covers the logic of that
//! process: parsing the metadata extractor's textual output, deriving
//! destination paths, partitioning sources into a safe-to-execute set and a
//! conflict set, expanding a primary file into its sidecar group, isolating
//! per-file failures, and driving the operator's review session. All
//! filesystem access and process invocation stays with the caller.

pub mod executor;

pub mod paths;

pub mod plan;

pub mod resolver;

pub mod session;

pub mod sidecar;

pub mod text;

pub mod timestamp;

pub mod walk;
