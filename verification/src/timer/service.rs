//! Settings and decisions of the service that drives the wheel.

use crate::error::Error;
use vstd::prelude::*;

verus! {

/// Time between two ticks where nothing is configured: the wheel counts in
/// steps of 10 ms, so that waking every 2.5 ms is plenty.
pub const DEFAULT_TICK_MICROS: u64 = 2500;

/// A request to the timer service.
#[derive(Debug, Clone, Copy, PartialEq, Eq, Structural)]
pub enum Request {
    /// Asks for a time stamp.
    Timestamp,
}

/// Settings of the timer service.
#[derive(Debug, Clone, Copy, PartialEq, Eq, Structural)]
pub struct TimerConfig {
    /// Microseconds between two ticks.
    pub tick_micros: u64,
}

impl Default for TimerConfig {
    /// A tick every 2.5 ms.
    fn default() -> (config: TimerConfig)
        ensures
            config.tick_micros == DEFAULT_TICK_MICROS,
    {
        TimerConfig { tick_micros: DEFAULT_TICK_MICROS }
    }
}

impl TimerConfig {
    /// The tick must not be empty.
    pub fn validate(&self) -> (result: Result<(), Error>)
        ensures
            result.is_ok() <==> self.tick_micros > 0,
            result matches Err(error) ==> error is Config && error.text()
                == "[timer] tick_micros 必须大于 0"@,
    {
        if self.tick_micros == 0 {
            return Err(Error::config("[timer] tick_micros 必须大于 0"));
        }
        Ok(())
    }
}

/// What the timer service does when it has nothing to answer.
#[derive(Debug, Clone, Copy, PartialEq, Eq, Structural)]
pub enum IdleStep {
    /// The node is closing: wait to be taken down.
    Park,
    /// The last service has left after the node had come up: close the node.
    Quit,
    /// Sleep until the next tick.
    Sleep,
}

/// What is done after a tick.
pub open spec fn step_after(quitting: bool, booted: bool, services: usize) -> IdleStep {
    if quitting {
        IdleStep::Park
    } else if booted && services == 0 {
        IdleStep::Quit
    } else {
        IdleStep::Sleep
    }
}

/// What to do after a tick, given whether the node is closing, whether it has
/// come up and how many services it has. Before the node has come up there
/// are no services yet, which does not mean that they have left.
pub fn idle_step(quitting: bool, booted: bool, services: usize) -> (step: IdleStep)
    ensures
        step == (if quitting {
            IdleStep::Park
        } else if booted && services == 0 {
            IdleStep::Quit
        } else {
            IdleStep::Sleep
        }),
        step == step_after(quitting, booted, services),
{
    if quitting {
        IdleStep::Park
    } else if booted && services == 0 {
        IdleStep::Quit
    } else {
        IdleStep::Sleep
    }
}

/// A node is closed once its last service has left, once only, and not before it has come up; while
/// services run, and while it comes up, time goes on.
pub proof fn law_a_node_closes_with_its_last_service(booted: bool, services: usize)
    ensures
        step_after(false, true, 0) is Quit,
        services > 0 ==> step_after(false, booted, services) is Sleep,
        !booted ==> step_after(false, booted, services) is Sleep,
        step_after(true, booted, services) is Park,
{
}

} // verus!
