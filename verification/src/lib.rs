//! Extraction, deduplication, ordering and assembly of documentation
//! references drawn from a Markdown corpus.
//!
//! The crate scans Markdown tables for links to reference pages of the
//! C++ standard library, folds them into a conflict-checked reference
//! set, plans which pages still have to be fetched into a local cache,
//! strips navigation chrome from fetched pages, and merges the cached
//! pages into a single printable document in a deterministic order.
//!
//! All file, network and HTML parsing work is left to the surrounding
//! application; this crate holds the logic on plain values and on its
//! own document tree, with contracts proved by Verus.

pub mod dom;
pub mod download;
pub mod errors;
pub mod ordering;
pub mod pattern;
pub mod print;
pub mod processing;
pub mod references;
pub mod strutil;
