//! A digital logic circuit simulator: tri-state signals, gate evaluation,
//! and an event-driven propagation engine with bounded stability checking.

pub mod components;
pub mod signal;
pub mod simulator;
