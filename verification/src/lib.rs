//! License discovery and collation engine.
//!
//! Given the resolved dependencies of a project, the engine decides which
//! files of each external dependency look license-related, turns each
//! discovered file into a destination path under a per-dependency namespace,
//! and plans the copies.  All decisions are pure functions over path and line
//! text; walking directories, reading files and copying them is left to the
//! caller, which feeds the observed entries in and carries the planned
//! copies out.

pub mod matcher;
pub mod paths;
pub mod deps;
pub mod locate;
pub mod collate;
