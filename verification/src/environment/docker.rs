//! Machines that are containers, reached through the daemon that runs them.
pub mod engine;
pub mod files;
pub mod spawn;
