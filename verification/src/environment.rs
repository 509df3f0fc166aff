//! Everything a machine can be asked to do, whatever way it is reached.
pub mod path;
pub mod docker;
pub mod edit;
pub mod exec;
pub mod glob;
pub mod machine;
pub mod target;
pub mod confine;
pub mod local;
pub mod ssh;
