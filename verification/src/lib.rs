//! Scheduling core of a unikernel: priority queues, blocked-task queues,
//! per-task exception slots, continuations, restart supervision and the
//! interrupt decisions around them, with their contracts proved.

pub mod addr;
pub mod arch;
pub mod bits;
pub mod boot;
pub mod config;
pub mod device_tree;
pub mod diagnostics;
pub mod duration;
pub mod errno;
pub mod executor;
pub mod fd;
pub mod handle_map;
pub mod memory;
pub mod pages;
pub mod scheduler;
pub mod syscalls;
