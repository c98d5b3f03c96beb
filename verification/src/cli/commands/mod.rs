//! Argument types of the subcommands.
pub mod output;
pub mod rules;
pub mod scan;
