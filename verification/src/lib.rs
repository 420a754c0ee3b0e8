//! Skill bundles: manifests that order the skills an agent reads during one task,
//! with their structural validation, stage readiness, and the command lines and
//! access rules of the web front end that drives them.

pub mod text;
pub mod graph;
pub mod bundle;
pub mod commands;
pub mod json;
pub mod web;
pub mod laws;
pub mod promises;
