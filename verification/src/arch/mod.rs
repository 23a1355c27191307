//! Architecture-specific parts.

pub mod aarch64;
pub mod x86_64;
