//! A local task runner: named tasks with commands and dependencies,
//! environment files and `$NAME` substitution, and the decisions that drive
//! child processes.
//!
//! - `text`: characters, words, trimming and decimal numbers.
//! - `entries`: lists of uniquely named entries seen as finite maps.
//! - `env`: the environment store, environment files, substitution.
//! - `tasks`: tasks and the manifest that holds them.
//! - `command`: which executable a command line runs.
//! - `executor`: the dependency walk and the state of a run.
//! - `listing`: the task table.
//! - `duration`: elapsed times as shown to a user.

pub mod command;
pub mod duration;
pub mod entries;
pub mod env;
pub mod executor;
pub mod listing;
pub mod tasks;
pub mod text;
