//! Signals to the process, and what is kept of a crash.

pub mod crash;
pub mod crash_laws;
pub mod signals;
