//! Hosts that dial out to faber: the daemon they run, and how it is enrolled.
pub mod handler;
pub mod routes;
