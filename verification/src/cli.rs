//! The command line: what it accepts, what it asks of the daemon and what it
//! prints.
pub mod args;
pub mod command_laws;
pub mod error;
pub mod group_laws;
pub mod group_toml;
pub mod listing;
pub mod outcome_laws;
pub mod spawn;
pub mod submit;
