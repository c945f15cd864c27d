//! Statement-dispatch front end for a SQL query engine.
//!
//! The library holds the verified core of a command-line SQL tool: resolving
//! command-line options into a run configuration, splitting raw text into
//! individual statements, driving a batch of statements through an external
//! engine one at a time, rendering column-oriented results as delimited text,
//! and the interactive session's line-buffering and history bookkeeping.
//! All I/O (the engine itself, the terminal, the history file) lives outside
//! the library; it hands the library plain values and takes plain values back.

pub mod config;
pub mod driver;
pub mod format;
pub mod history;
pub mod repl;
pub mod split;
