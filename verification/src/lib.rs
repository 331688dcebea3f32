//! Planning for a tmux-compatible command line that drives the `cmux` terminal multiplexer.

pub mod bridge;
pub mod cli;
pub mod commands;
pub mod layout;
pub mod refs;
pub mod scan;
pub mod standalone;
pub mod text;
