//! forkme: keep a fork of a project as a set of patches, one record per
//! changed file, stored under `patches/` by the file's path.
//!
//! This crate holds the logic of the tool, with its specifications: where
//! each record lives and how its path leads back to the file (`patch`),
//! how a sync turns the differences from upstream into records (`sync`),
//! what applying a record makes of a file (`apply`), the statistics over
//! the store (`stats`), the order in which emptied directories are removed
//! (`cleanup`), the steps of an update (`update`), and the small formats
//! of the project (`config`, `init`, `git`, `status`).

pub mod apply;
pub mod cleanup;
pub mod config;
pub mod git;
pub mod init;
pub mod patch;
pub mod stats;
pub mod status;
pub mod sync;
pub mod text;
pub mod update;
