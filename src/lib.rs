//! Change detection and row diffing for a polling table watcher.
//!
//! The library holds the logic of the watcher: counter snapshots and change
//! detection, the debounce state machine, the row diff engine with its key
//! resolution, the bounded change history, selection and command parsing, and
//! configuration checks. Database access, terminal output and the polling loop
//! live outside of it and hand it plain values.

pub mod row;
pub mod diff;
pub mod stats;
pub mod history;
pub mod text;
pub mod cycle;
pub mod selection;
pub mod config;
