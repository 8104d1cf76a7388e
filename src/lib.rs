//! Merge two branches and resolve textual conflicts through a completion
//! service, applying every resolution or rolling the merge back.

pub mod text;
pub mod excerpt;
pub mod model;
pub mod client;
pub mod orchestrator;
pub mod repo;
