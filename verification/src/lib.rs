//! Curated, session-oriented directory bookmarks and their tmux layouts.
//!
//! The library holds what the `bmersive` command decides: where its state
//! files live, how bookmark paths are normalized, what each bookmark and
//! session command does to the saved sessions, and which tmux commands
//! materialize a session. Reading and writing files, the environment and
//! running tmux are left to the caller.

pub mod commands;
pub mod errors;
pub mod laws;
pub mod locations;
pub mod paths;
pub mod shell;
pub mod state;
pub mod text;
pub mod tmux;
