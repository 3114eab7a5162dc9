//! Time: a hierarchical timing wheel and the clock that drives it.
//!
//! The clock side takes timers at any moment and queues them; the wheel side
//! is driven from one place, which puts the queued timers into the wheel and
//! takes out what has expired. Times are milliseconds, one tick of the wheel
//! is ten of them.

pub mod clock;
pub mod service;
pub mod wheel;
