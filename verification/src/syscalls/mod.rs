//! The system calls.

pub mod tasks;
