//! Interrupts and exceptions.

pub mod double_fault;
pub mod effects;
pub mod fault_report;
pub mod frame_dump;
pub mod gic;
pub mod gic_effects;
pub mod handlers;
pub mod ids;
pub mod irq;
pub mod pmr;
pub mod statistics;
pub mod sync;
pub mod syndrome;
