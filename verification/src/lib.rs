//! Synchronization engine for mirroring local folders onto a shared secondary volume.
//!
//! The engine takes content-addressed snapshots of two directory trees, diffs each
//! against a common base snapshot, merges the two changesets into a sync plan and
//! decides, entry by entry, which file operations bring both trees together.

pub mod text;
pub mod order;
pub mod paths;
pub mod pathmap;
pub mod ignore;
pub mod config;
pub mod target;
pub mod clock;
pub mod snapshot;
pub mod diff;
pub mod laws;
pub mod scanner;
pub mod sync_engine;
pub mod run;
pub mod effects;
