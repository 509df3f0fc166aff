//! Sessions, runs and the machines they reach.
use vstd::prelude::*;

pub mod access;
pub mod agent;
pub mod blobs;
pub mod encoding;
pub mod environment;
pub mod environments;
pub mod error;
pub mod json;
pub mod message;
pub mod models;
pub mod presentation;
pub mod routes;
pub mod run;
pub mod state;
pub mod text;

verus! {

} // verus!
