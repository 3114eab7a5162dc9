//! The timer wheel and its clock.

use rskynet::timer::clock::WheelTimer;
use rskynet::timer::service::{idle_step, IdleStep, TimerConfig};
use rskynet::timer::wheel::{TimerEvent, TimerKey, Wheel, TIME_LEVELS};
use std::time::{Duration, Instant};

fn advance(wheel: &mut Wheel, ticks: u64) -> Vec<TimerEvent> {
    let mut out = Vec::new();
    for _ in 0..ticks {
        wheel.execute(&mut out);
        wheel.shift();
        wheel.execute(&mut out);
    }
    out
}

fn arm(wheel: &mut Wheel, session: u64, ticks: u64) -> TimerKey {
    let event = TimerEvent {
        handle: 1,
        session,
        expire: wheel.time.saturating_add(ticks),
    };
    let key = event.key();
    wheel.add(event);
    key
}

#[test]
fn near_wheel_fires_in_order() {
    let mut wheel = Wheel::new();
    arm(&mut wheel, 1, 1);
    arm(&mut wheel, 2, 3);

    let fired = advance(&mut wheel, 1);
    assert_eq!(fired.iter().map(|e| e.session).collect::<Vec<_>>(), vec![1]);
    assert!(advance(&mut wheel, 1).is_empty());
    let fired = advance(&mut wheel, 1);
    assert_eq!(fired.iter().map(|e| e.session).collect::<Vec<_>>(), vec![2]);
}

#[test]
fn zero_delay_fires_immediately() {
    let mut wheel = Wheel::new();
    arm(&mut wheel, 1, 0);
    assert_eq!(advance(&mut wheel, 1).len(), 1);
}

#[test]
fn timer_migrated_from_upper_level_is_punctual() {
    let mut wheel = Wheel::new();
    arm(&mut wheel, 7, 300);
    assert!(wheel.levels[0].iter().any(|slot| !slot.is_empty()));
    assert!(advance(&mut wheel, 299).is_empty());
    let fired = advance(&mut wheel, 1);
    assert_eq!(fired.len(), 1);
    assert_eq!(fired[0].session, 7);
}

#[test]
fn all_levels_are_punctual() {
    for ticks in [255u64, 256, 257, 1000, 16_384, 20_000, 1_048_576] {
        let mut wheel = Wheel::new();
        arm(&mut wheel, 1, ticks);
        assert!(advance(&mut wheel, ticks - 1).is_empty());
        assert_eq!(advance(&mut wheel, 1).len(), 1);
    }
}

#[test]
fn timers_in_same_slot_fire_together() {
    let mut wheel = Wheel::new();
    for session in 1..=5 {
        arm(&mut wheel, session, 10);
    }
    assert!(advance(&mut wheel, 9).is_empty());
    assert_eq!(advance(&mut wheel, 1).len(), 5);
}

#[test]
fn cancel_physically_removes_near_and_level_events() {
    let mut wheel = Wheel::new();
    let near = arm(&mut wheel, 1, 10);
    let level = arm(&mut wheel, 2, 300);
    wheel.cancel(near);
    wheel.cancel(level);
    assert!(wheel.locations.is_empty());
    assert!(advance(&mut wheel, 300).is_empty());
}

#[test]
fn swap_remove_keeps_moved_event_location_current() {
    let mut wheel = Wheel::new();
    let first = arm(&mut wheel, 1, 10);
    let second = arm(&mut wheel, 2, 10);
    wheel.cancel(first);
    wheel.cancel(second);
    assert!(wheel.locations.is_empty());
    assert!(advance(&mut wheel, 10).is_empty());
}

#[test]
fn ticks_cross_the_old_u32_boundary_without_wrapping() {
    let mut wheel = Wheel::new();
    wheel.time = u32::MAX as u64 - 2;
    arm(&mut wheel, 1, 5);
    assert!(advance(&mut wheel, 4).is_empty());
    assert_eq!(advance(&mut wheel, 1).len(), 1);
}

#[test]
fn highest_u64_ticks_use_the_top_level_and_can_be_cancelled() {
    let mut wheel = Wheel::new();
    let key = arm(&mut wheel, 1, u64::MAX);
    assert!(wheel.levels[TIME_LEVELS - 1]
        .iter()
        .any(|slot| !slot.is_empty()));
    wheel.cancel(key);
    assert!(wheel.locations.is_empty());
}

#[test]
fn expiry_is_known_while_a_timer_is_armed() {
    let mut wheel = Wheel::starting_at(1000);
    let key = arm(&mut wheel, 3, 70_000);
    assert_eq!(wheel.expiry(key), Some(71_000));
    assert!(!wheel.is_empty());
    wheel.cancel(key);
    assert_eq!(wheel.expiry(key), None);
    assert!(wheel.is_empty());
}

#[test]
fn advancing_fires_what_is_due_and_nothing_else() {
    let mut wheel = Wheel::new();
    arm(&mut wheel, 1, 5);
    arm(&mut wheel, 2, 500);
    let mut out = Vec::new();
    wheel.advance(100, &mut out);
    assert_eq!(out.iter().map(|e| e.session).collect::<Vec<_>>(), vec![1]);
    assert_eq!(wheel.time, 100);
    wheel.advance(400, &mut out);
    assert_eq!(out.iter().map(|e| e.session).collect::<Vec<_>>(), vec![1, 2]);
}

#[test]
fn clock_never_goes_backwards() {
    let mut timer = WheelTimer::new();
    let mut wheel = Wheel::new();
    let before = timer.now();
    timer.update(&mut wheel);
    assert!(timer.now() >= before);
    assert!(timer.start_seconds() > 1_600_000_000);
    assert!(timer.wall_clock() >= timer.start_seconds() * 100);
}

#[test]
fn an_armed_timer_fires_on_its_tick() {
    let mut timer = WheelTimer::new();
    let mut wheel = Wheel::new();
    timer.timeout(7, 42, 1);
    // The first update only puts what is queued into the wheel.
    timer.update(&mut wheel);

    let deadline = Instant::now() + Duration::from_secs(5);
    let mut fired = Vec::new();
    while fired.is_empty() && Instant::now() < deadline {
        fired = timer.update(&mut wheel);
    }
    assert_eq!(fired.len(), 1);
    assert_eq!(fired[0].handle, 7);
    assert_eq!(fired[0].session, 42);
}

#[test]
fn delays_are_rounded_up_to_a_tick() {
    let mut timer = WheelTimer::new();
    let mut wheel = Wheel::new();
    timer.timeout(1, 1, 15);
    assert!(timer.update_to(10, &mut wheel).is_empty());
    assert_eq!(timer.update_to(20, &mut wheel).len(), 1);
    assert_eq!(timer.now(), 20);
    // A time that lies before the one the clock shows changes nothing.
    assert!(timer.update_to(5, &mut wheel).is_empty());
    assert_eq!(timer.now(), 20);
    let stamp = timer.stamp();
    assert_eq!(stamp.now, 20);
    assert_eq!(stamp.wall_clock, timer.wall_clock());
    assert_eq!(stamp.start_seconds, timer.start_seconds());
}

#[test]
fn a_tick_takes_time() {
    assert!(TimerConfig::default().validate().is_ok());
    assert_eq!(TimerConfig::default().tick_micros, 2500);
    let error = TimerConfig { tick_micros: 0 }.validate().unwrap_err();
    assert!(error.message().contains("tick"));
}

#[test]
fn the_node_closes_with_its_last_service() {
    assert_eq!(idle_step(true, true, 3), IdleStep::Park);
    assert_eq!(idle_step(false, true, 0), IdleStep::Quit);
    assert_eq!(idle_step(false, false, 0), IdleStep::Sleep);
    assert_eq!(idle_step(false, true, 1), IdleStep::Sleep);
}
