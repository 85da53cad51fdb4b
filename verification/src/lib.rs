//! Workspace configurations for a profile runner: their text format, the
//! identity of a directory, and the decisions of the command-line tools.
pub mod text;
pub mod models;
pub mod round_trip;
pub mod cli;
pub mod identity;
pub mod store;
pub mod editor;
pub mod session;
