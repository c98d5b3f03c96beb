//! Command-line argument types.
pub mod commands;
