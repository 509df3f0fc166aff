//! Machines reached over ssh.
pub mod files;
