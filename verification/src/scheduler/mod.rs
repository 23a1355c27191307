//! Per-core scheduling.

pub mod boot;
pub mod control;
pub mod effects;
pub mod exit;
pub mod input;
pub mod laws;
pub mod objects;
pub mod per_core;
pub mod registry;
pub mod spawn;
pub mod state;
pub mod supervisor;
pub mod task;
pub mod wake;
