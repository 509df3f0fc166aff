//! Live previews of what runs inside an environment.
pub mod resolve;
