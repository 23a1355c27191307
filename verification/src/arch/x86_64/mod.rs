//! The x86-64 architecture.

pub mod kernel;
