//! Core engine of a project-template instantiation tool: derives stable cache
//! paths for (git identifier, branch) pairs, validates template manifests and
//! their placeholder declarations, and rewrites placeholder tokens in
//! template file contents.

pub mod data;
pub mod exec;
pub mod json;
pub mod paths;
pub mod subst;
