//! Split multi-component commits into isolated per-component branches.
//!
//! The verified core of the tool: ref-spec parsing, configuration types and
//! validation, first-match-wins component matching, branch-state decisions,
//! commit planning, the commit-range walk and the rendering of its output.
pub mod cli;
pub mod config;
pub mod domain;
pub mod git;
