//! Carrying out an installation plan.

pub mod archive;
pub mod archive_laws;
pub mod cargo;
pub mod cargo_laws;
pub mod execution;
pub mod execution_laws;
pub mod stage;
pub mod stage_laws;
pub mod tree_laws;
