//! Core of a declarative machine-bootstrapping tool: task descriptors are
//! filtered, ordered by their dependencies and driven through a serial
//! bootstrap phase and a bounded parallel phase, each task ending in exactly
//! one terminal status.
use vstd::prelude::*;

pub mod config;
pub mod error;
pub mod execute;
pub mod expand;
pub mod graph;
pub mod names;
pub mod opts;
pub mod paths;
pub mod payload;
pub mod schedule;
pub mod select;
pub mod status;
pub mod task;
pub mod time;

verus! {

} // verus!
