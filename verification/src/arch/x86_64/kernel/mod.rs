//! The kernel's architecture-specific parts.

pub mod core_local;
