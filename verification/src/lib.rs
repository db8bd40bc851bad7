//! Batch updater for a book-metadata catalog.
//!
//! The library holds the verified core of the tool: the content
//! fingerprint, the good-enough score, the per-item pipeline decisions,
//! the durable item-state store, the external-command planning (environment
//! strategies, retry policy, timeout classification), candidate filtering,
//! and the duplicate-file grouping of the side scanner.  The surrounding
//! binary performs the actual process spawning, file reads and writes, and
//! feeds the results back into these functions.

pub mod calibre;
pub mod config;
pub mod dups;
pub mod fingerprint;
pub mod json;
pub mod metadata;
pub mod pipeline;
pub mod runner;
pub mod state;
pub mod strutil;
