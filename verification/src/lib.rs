//! Toolchain installation for Miden: manifests, resolution, planning and staging decisions.

pub mod artifact;
pub mod exec;
pub mod install;
pub mod manifest;
pub mod message_laws;
pub mod order;
pub mod path;
pub mod path_laws;
pub mod plan;
pub mod profile;
pub mod resolve;
pub mod resolve_laws;
pub mod result_laws;
pub mod sorted;
pub mod state;
pub mod text;
pub mod text_laws;
pub mod update;
pub mod value;
pub mod version;
