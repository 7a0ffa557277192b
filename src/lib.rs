//! Bring-up sequencing for a static, priority-preemptive interrupt runtime.
//!
//! From an elaborated application model this library computes the ordered list
//! of hardware-initialization steps that must run once, with interrupts
//! disabled, before any task body executes.

pub mod priority;
pub mod model;
pub mod step;
pub mod sequence;
pub mod laws;
