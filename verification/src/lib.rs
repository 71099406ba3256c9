//! Library side of a git workflow helper: command-line parsing, conditional
//! file checks, the splice workflow and the commit-graph model of its viewer.

pub mod text;
pub mod cli;
pub mod conditions;
pub mod workflow;
pub mod strmap;
pub mod graph;
pub mod view;
