//! The 64-bit Arm architecture.

pub mod kernel;
