//! Static analysis of module layering and planned unit moves.
//!
//! The crate models a codebase as a set of layered modules, each holding
//! compilation units with declared dependencies and migration annotations.
//! It resolves unit ownership, runs a battery of rule checks over the graph,
//! propagates indirect involvement and blocker information to a fixed point,
//! and scores the resulting reports.

pub mod analyze;
pub mod blockers;
pub mod checks;
pub mod commands;
pub mod deps;
pub mod filters;
pub mod indirect;
pub mod kind;
pub mod laws;
pub mod model;
pub mod moves;
pub mod order;
pub mod ownership;
pub mod report;
pub mod scoring;
pub mod strops;
