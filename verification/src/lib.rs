//! Core of a dependency-graph viewer for resolved package sets.
//!
//! Given the flat list of packages that an external metadata collaborator
//! reports for one project, this library builds a bidirectional dependency
//! graph (dependencies and dependents per package, deduplicated per
//! neighbour), resolves each declared requirement to a concrete package,
//! locates the root package, groups packages by license, and answers
//! read-only queries (filtering, feature lookups) against the loaded
//! project.

pub mod config;
pub mod filter;
pub mod graph;
pub mod license;
pub mod matcher;
pub mod pipeline;
pub mod pkg;
pub mod project;
pub mod registry;
pub mod ui;
