//! Snapshot bookkeeping for configuration files.
//!
//! A snapshot is a named set of files copied into one directory, together
//! with a record of where each file came from. This crate holds the rules of
//! that bookkeeping: how a source path is turned into a stored file name, how
//! a stored path is rewritten when a snapshot is renamed, what the registry of
//! snapshots holds after each operation, and which copies an operation asks
//! for. Reading and writing files is left to the caller, who hands the
//! results back as plain values.

pub mod cli;
pub mod config;
pub mod dirs;
pub mod engine;
pub mod hooks;
pub mod laws;
pub mod logger;
pub mod metadata;
pub mod path;
pub mod registry;
pub mod strmap;
pub mod template;
pub mod text;
