//! The clock: queued timers, elapsed milliseconds, unix time.

use crate::timer::wheel::{TimerEvent, TimerKey, Wheel};
use crossbeam_queue::SegQueue;
use std::time::{Instant, SystemTime, UNIX_EPOCH};
use vstd::prelude::*;
#[allow(unused_imports)]
use crate::timer::wheel::fired_by;

verus! {

/// Milliseconds in one tick of the wheel.
pub const TICK_MILLIS: u64 = 10;

/// The unbounded queue of `crossbeam_queue`.
#[verifier::external_type_specification]
#[verifier::external_body]
#[verifier::reject_recursive_types(T)]
pub struct ExSegQueue<T>(SegQueue<T>);

/// The monotonic clock's point in time, `std::time::Instant`.
#[verifier::external_type_specification]
#[verifier::external_body]
pub struct ExInstant(Instant);

/// What a queue holds, first in first: handle, session and expiry tick of
/// each timer.
pub uninterp spec fn queued(queue: SegQueue<(u32, u64, u64)>) -> Seq<(u32, u64, u64)>;

/// `SegQueue::new`: the queue is empty.
#[verifier::external_body]
fn queue_new() -> (queue: SegQueue<(u32, u64, u64)>)
    ensures
        queued(queue) == Seq::<(u32, u64, u64)>::empty(),
{
    SegQueue::new()
}

/// `SegQueue::push`: the item goes to the back of the queue. The exclusive
/// reference keeps other threads out for the time of the call.
#[verifier::external_body]
fn queue_push(queue: &mut SegQueue<(u32, u64, u64)>, item: (u32, u64, u64))
    ensures
        queued(*final(queue)) == queued(*old(queue)).push(item),
{
    queue.push(item)
}

/// `SegQueue::pop`: the item at the front of the queue, `None` when the queue
/// is empty. The exclusive reference keeps other threads out for the time of
/// the call.
#[verifier::external_body]
fn queue_pop(queue: &mut SegQueue<(u32, u64, u64)>) -> (item: Option<(u32, u64, u64)>)
    ensures
        match item {
            None => queued(*old(queue)).len() == 0 && queued(*final(queue)) == queued(*old(queue)),
            Some(front) => queued(*old(queue)).len() > 0 && front == queued(*old(queue))[0]
                && queued(*final(queue)) == queued(*old(queue)).drop_first(),
        },
{
    queue.pop()
}

/// `Instant::now`: the present. Nothing is stated of it.
#[verifier::external_body]
fn instant_now() -> (now: Instant) {
    Instant::now()
}

/// `Instant::elapsed` in milliseconds. Nothing is stated of it.
#[verifier::external_body]
fn millis_since(started: &Instant) -> (millis: u64) {
    started.elapsed().as_millis() as u64
}

/// `SystemTime::now` since the unix epoch, in seconds and the milliseconds of
/// the last second; both are zero for a clock set before the epoch. Nothing is
/// stated of the seconds.
#[verifier::external_body]
fn unix_now() -> (now: (u64, u64))
    ensures
        now.1 < 1000,
{
    let now = SystemTime::now().duration_since(UNIX_EPOCH).unwrap_or_default();
    (now.as_secs(), u64::from(now.subsec_millis()))
}

/// The tick at which a timer armed at millisecond `now` with a delay of
/// `delay` milliseconds expires: the first tick that begins when the delay has
/// passed.
pub open spec fn expiry_tick(now: u64, delay: u64) -> u64 {
    let due = if now + delay > u64::MAX {
        u64::MAX as int
    } else {
        now + delay
    };
    ((due + 9) / 10) as u64
}

/// The event that a queue item stands for.
pub open spec fn event_of(item: (u32, u64, u64)) -> TimerEvent {
    TimerEvent { handle: item.0, session: item.1, expire: item.2 }
}

/// The timers `armed` with those of `items` armed on top, at tick `time`.
pub open spec fn with_queued(
    armed: Map<TimerKey, u64>,
    time: u64,
    items: Seq<(u32, u64, u64)>,
) -> Map<TimerKey, u64>
    decreases items.len(),
{
    if items.len() == 0 {
        armed
    } else {
        let event = event_of(items.last());
        with_queued(armed, time, items.drop_last()).insert(
            event.spec_key(),
            if event.expire <= time {
                time
            } else {
                event.expire
            },
        )
    }
}

/// No timer is queued twice or queued while it is armed.
pub open spec fn fresh(armed: Map<TimerKey, u64>, items: Seq<(u32, u64, u64)>) -> bool {
    &&& forall|i: int|
        0 <= i < items.len() ==> !armed.contains_key(#[trigger] event_of(items[i]).spec_key())
    &&& forall|i: int, j: int|
        0 <= i < j < items.len() ==> #[trigger] event_of(items[i]).spec_key()
            != #[trigger] event_of(items[j]).spec_key()
}

/// A key is armed after the queue was emptied exactly where it was armed
/// before or is queued.
proof fn lemma_with_queued_keys(
    armed: Map<TimerKey, u64>,
    time: u64,
    items: Seq<(u32, u64, u64)>,
    key: TimerKey,
)
    ensures
        with_queued(armed, time, items).contains_key(key) <==> armed.contains_key(key) || exists|
            i: int,
        |
            0 <= i < items.len() && #[trigger] event_of(items[i]).spec_key() == key,
    decreases items.len(),
{
    if items.len() > 0 {
        let rest = items.drop_last();
        lemma_with_queued_keys(armed, time, rest, key);
        if event_of(items.last()).spec_key() == key {
            assert(event_of(items[items.len() - 1]).spec_key() == key);
        }
        if exists|i: int| 0 <= i < items.len() && #[trigger] event_of(items[i]).spec_key() == key {
            let i = choose|i: int|
                0 <= i < items.len() && #[trigger] event_of(items[i]).spec_key() == key;
            if i < rest.len() {
                assert(event_of(rest[i]).spec_key() == key);
            }
        }
        if exists|i: int| 0 <= i < rest.len() && #[trigger] event_of(rest[i]).spec_key() == key {
            let i = choose|i: int|
                0 <= i < rest.len() && #[trigger] event_of(rest[i]).spec_key() == key;
            assert(event_of(items[i]).spec_key() == key);
        }
    }
}

/// A source of time that counts milliseconds and queues timers for a wheel.
pub struct WheelTimer {
    /// Timers that wait to be put into the wheel.
    pub incoming: SegQueue<(u32, u64, u64)>,
    /// When the clock was started.
    pub started: Instant,
    /// Unix time at the start, in seconds.
    pub start_seconds: u64,
    /// Milliseconds of the last of these seconds.
    pub start_millis: u64,
    /// Milliseconds that the clock has counted.
    pub elapsed: u64,
}

/// What a clock says: milliseconds since the start, unix time in milliseconds,
/// and unix time of the start in seconds.
#[derive(Debug, Clone, Copy, PartialEq, Eq, Structural)]
pub struct Timestamp {
    pub now: u64,
    pub wall_clock: u64,
    pub start_seconds: u64,
}

impl WheelTimer {
    /// The timers in the queue.
    pub open spec fn pending(&self) -> Seq<(u32, u64, u64)> {
        queued(self.incoming)
    }

    /// The wheel stands at the tick that the clock shows.
    pub open spec fn in_step(&self, wheel: &Wheel) -> bool {
        wheel.time == self.elapsed / 10
    }

    /// A clock that starts now.
    pub fn new() -> (timer: WheelTimer)
        ensures
            timer.elapsed == 0,
            timer.start_millis < 1000,
            timer.pending() == Seq::<(u32, u64, u64)>::empty(),
    {
        let now = unix_now();
        WheelTimer {
            incoming: queue_new(),
            started: instant_now(),
            start_seconds: now.0,
            start_millis: now.1,
            elapsed: 0,
        }
    }

    /// Queues a timer that expires `delay` milliseconds from now. Its expiry
    /// is fixed here: that it enters the wheel later does not make it longer.
    pub fn timeout(&mut self, handle: u32, session: u64, delay: u64)
        ensures
            final(self).pending() == old(self).pending().push(
                (handle, session, expiry_tick(old(self).elapsed, delay)),
            ),
            final(self).elapsed == old(self).elapsed,
            final(self).started == old(self).started,
            final(self).start_seconds == old(self).start_seconds,
            final(self).start_millis == old(self).start_millis,
    {
        let due: u64 = self.elapsed.saturating_add(delay);
        let expire: u64 = due / TICK_MILLIS + if due % TICK_MILLIS == 0 {
            0
        } else {
            1
        };
        queue_push(&mut self.incoming, (handle, session, expire));
    }

    /// Brings clock and wheel to the present and returns the timers that have
    /// expired.
    pub fn update(&mut self, wheel: &mut Wheel) -> (fired: Vec<TimerEvent>)
        requires
            old(wheel).wf(),
            old(self).in_step(old(wheel)),
            fresh(old(wheel)@, old(self).pending()),
        ensures
            final(wheel).wf(),
            final(self).in_step(final(wheel)),
            final(self).elapsed >= old(self).elapsed,
            final(self).pending() == Seq::<(u32, u64, u64)>::empty(),
            final(self).started == old(self).started,
            final(self).start_seconds == old(self).start_seconds,
            final(self).start_millis == old(self).start_millis,
            fired_by(
                with_queued(old(wheel)@, old(wheel).time, old(self).pending()),
                final(wheel).time as int,
                Seq::empty(),
                fired@,
                final(wheel)@,
            ),
    {
        let now: u64 = millis_since(&self.started);
        self.update_to(now, wheel)
    }

    /// Brings clock and wheel to millisecond `now`, or leaves the clock where
    /// it is if it is there already, and returns the timers that have expired,
    /// in the order of their expiry.
    pub fn update_to(&mut self, now: u64, wheel: &mut Wheel) -> (fired: Vec<TimerEvent>)
        requires
            old(wheel).wf(),
            old(self).in_step(old(wheel)),
            fresh(old(wheel)@, old(self).pending()),
        ensures
            final(wheel).wf(),
            final(self).in_step(final(wheel)),
            final(self).elapsed == if now > old(self).elapsed {
                now
            } else {
                old(self).elapsed
            },
            final(self).elapsed == old(self).moved(now),
            final(self).pending() == Seq::<(u32, u64, u64)>::empty(),
            final(self).started == old(self).started,
            final(self).start_seconds == old(self).start_seconds,
            final(self).start_millis == old(self).start_millis,
            fired_by(
                with_queued(old(wheel)@, old(wheel).time, old(self).pending()),
                final(wheel).time as int,
                Seq::empty(),
                fired@,
                final(wheel)@,
            ),
    {
        let ghost all = self.pending();
        let ghost armed = wheel@;
        let ghost mut done: int = 0;
        assert(all.take(0) =~= Seq::<(u32, u64, u64)>::empty());
        assert(all.skip(0) =~= all);
        let mut next = queue_pop(&mut self.incoming);
        while next.is_some()
            invariant
                0 <= done <= all.len(),
                all == old(self).pending(),
                armed == old(wheel)@,
                fresh(armed, all),
                wheel.wf(),
                wheel.time == old(wheel).time,
                wheel@ == with_queued(armed, old(wheel).time, all.take(done)),
                next.is_some() ==> done < all.len() && next.unwrap() == all[done] && self.pending()
                    == all.skip(done + 1),
                next.is_none() ==> done == all.len() && self.pending() =~= Seq::<
                    (u32, u64, u64),
                >::empty(),
                self.elapsed == old(self).elapsed,
                self.started == old(self).started,
                self.start_seconds == old(self).start_seconds,
                self.start_millis == old(self).start_millis,
            decreases all.len() - done + (if next.is_some() { 1int } else { 0int }),
        {
            let item = next.unwrap();
            let event = TimerEvent { handle: item.0, session: item.1, expire: item.2 };
            proof {
                lemma_with_queued_keys(
                    armed,
                    old(wheel).time,
                    all.take(done),
                    event.spec_key(),
                );
                assert(event_of(all[done]) == event);
                assert forall|i: int| 0 <= i < done implies #[trigger] event_of(
                    all.take(done)[i],
                ).spec_key() != event.spec_key() by {
                    assert(event_of(all[i]).spec_key() != event_of(all[done]).spec_key());
                }
            }
            wheel.add(event);
            proof {
                assert(all.take(done + 1).drop_last() =~= all.take(done));
                if done + 1 < all.len() {
                    assert(all.skip(done + 1)[0] == all[done + 1]);
                    assert(all.skip(done + 1).drop_first() =~= all.skip(done + 2));
                }
                done = done + 1;
            }
            next = queue_pop(&mut self.incoming);
        }
        assert(all.take(done) =~= all);
        let mut fired: Vec<TimerEvent> = Vec::new();
        let mut ticks: u64 = 0;
        if now > self.elapsed {
            ticks = now / TICK_MILLIS - self.elapsed / TICK_MILLIS;
            self.elapsed = now;
        }
        wheel.advance(ticks, &mut fired);
        fired
    }

    /// What the clock shows when it is brought to millisecond `now`.
    pub open spec fn moved(&self, now: u64) -> u64 {
        if now > self.elapsed {
            now
        } else {
            self.elapsed
        }
    }

    /// What the clock says.
    pub open spec fn shown(&self) -> Timestamp {
        Timestamp {
            now: self.elapsed,
            wall_clock: self.unix_millis(),
            start_seconds: self.start_seconds,
        }
    }

    /// Milliseconds since the start.
    pub fn now(&self) -> (now: u64)
        ensures
            now == self.elapsed,
    {
        self.elapsed
    }

    /// Unix time in milliseconds, or the largest number if it does not fit.
    pub open spec fn unix_millis(&self) -> u64 {
        let millis = self.start_seconds * 1000 + self.start_millis + self.elapsed;
        if millis > u64::MAX {
            u64::MAX
        } else {
            millis as u64
        }
    }

    /// Unix time in milliseconds.
    pub fn wall_clock(&self) -> (millis: u64)
        ensures
            millis == self.unix_millis(),
    {
        let millis: u128 = self.start_seconds as u128 * 1000 + self.start_millis as u128
            + self.elapsed as u128;
        if millis > u64::MAX as u128 {
            u64::MAX
        } else {
            millis as u64
        }
    }

    /// Unix time of the start, in seconds.
    pub fn start_seconds(&self) -> (seconds: u64)
        ensures
            seconds == self.start_seconds,
    {
        self.start_seconds
    }

    /// What the clock says now.
    pub fn stamp(&self) -> (stamp: Timestamp)
        ensures
            stamp == (Timestamp {
                now: self.elapsed,
                wall_clock: self.unix_millis(),
                start_seconds: self.start_seconds,
            }),
            stamp == self.shown(),
    {
        Timestamp {
            now: self.now(),
            wall_clock: self.wall_clock(),
            start_seconds: self.start_seconds(),
        }
    }
}

impl Default for WheelTimer {
    /// A clock that starts now.
    fn default() -> (timer: WheelTimer)
        ensures
            timer.elapsed == 0,
            timer.start_millis < 1000,
            timer.pending() == Seq::<(u32, u64, u64)>::empty(),
    {
        WheelTimer::new()
    }
}

/// A timer armed at millisecond `armed_at` with a delay of `delay`, and taken
/// out by the first update whose clock has reached its tick, fires neither
/// before the delay has passed nor later than the first update that comes ten
/// milliseconds after that: whether an update at `now` has reached its tick is
/// fixed by these two times.
pub proof fn law_timers_are_punctual(armed_at: u64, delay: u64, now: u64)
    requires
        armed_at + delay <= u64::MAX,
    ensures
        now / 10 >= expiry_tick(armed_at, delay) ==> now >= armed_at + delay,
        now >= armed_at + delay + 9 ==> now / 10 >= expiry_tick(armed_at, delay),
{
}

/// Unix time goes on with the clock: at the start it is the start, in milliseconds, and between two
/// moments it moves by as much as the clock has counted. A time that does not fit stays at the
/// largest number.
pub proof fn law_unix_time_goes_on_with_the_clock(earlier: WheelTimer, later: WheelTimer)
    requires
        earlier.start_seconds == later.start_seconds,
        earlier.start_millis == later.start_millis,
    ensures
        earlier.elapsed == 0 && earlier.start_seconds * 1000 + earlier.start_millis <= u64::MAX
            ==> earlier.unix_millis() == earlier.start_seconds * 1000 + earlier.start_millis,
        earlier.unix_millis() < u64::MAX && later.unix_millis() < u64::MAX ==> later.unix_millis()
            - earlier.unix_millis() == later.elapsed - earlier.elapsed,
        earlier.elapsed <= later.elapsed ==> earlier.unix_millis() <= later.unix_millis(),
        later.unix_millis() == u64::MAX ==> later.start_seconds * 1000 + later.start_millis
            + later.elapsed >= u64::MAX,
{
}

/// The clock does not go back, and it shows the present where that is later than what it shows.
pub proof fn law_the_clock_does_not_go_back(timer: WheelTimer, now: u64, later: u64)
    requires
        now <= later,
    ensures
        timer.moved(now) >= timer.elapsed,
        timer.moved(now) >= now,
        timer.moved(now) == now || timer.moved(now) == timer.elapsed,
        timer.moved(now) <= timer.moved(later),
{
}

/// A time stamp fits together: unix time is that of the start and the milliseconds since, as far as
/// it fits.
pub proof fn law_a_stamp_fits_together(timer: WheelTimer)
    requires
        timer.start_millis < 1000,
    ensures
        ({
            let stamp = timer.shown();
            stamp.wall_clock < u64::MAX ==> {
                &&& stamp.start_seconds * 1000 + stamp.now <= stamp.wall_clock
                &&& stamp.wall_clock < stamp.start_seconds * 1000 + stamp.now + 1000
            }
        }),
{
}

/// A delay that is longer is not over sooner, and whoever waits later or longer waits for a tick
/// that is not earlier.
pub proof fn law_a_longer_delay_is_not_over_sooner(now: u64, delay: u64, later: u64, longer: u64)
    requires
        now <= later,
        delay <= longer,
    ensures
        expiry_tick(now, delay) <= expiry_tick(later, longer),
        now + delay <= u64::MAX && delay > 0 ==> expiry_tick(now, delay) > now / 10 || delay < 10,
        now % 10 == 0 && delay % 10 == 0 && now + delay <= u64::MAX ==> expiry_tick(now, delay)
            == now / 10 + delay / 10,
{
}

/// Of the timers that are armed and those that are queued, an update takes out exactly those whose
/// tick has come, each once, with handle and session as they were given, and in the order of their
/// ticks; the others stay armed for their own tick. No tick may have been reached before that of
/// the wheel.
pub proof fn law_every_timer_fires_once_on_its_tick(
    armed: Map<TimerKey, u64>,
    time: u64,
    items: Seq<(u32, u64, u64)>,
    horizon: u64,
    fired: Seq<TimerEvent>,
    after: Map<TimerKey, u64>,
    place: int,
)
    requires
        fresh(armed, items),
        time <= horizon,
        0 <= place < items.len(),
        fired_by(with_queued(armed, time, items), horizon as int, Seq::empty(), fired, after),
    ensures
        ({
            let key = TimerKey { handle: items[place].0, session: items[place].1 };
            let tick = items[place].2;
            &&& tick <= horizon ==> fires_in(fired, key) && !after.contains_key(key)
            &&& tick > horizon ==> !fires_in(fired, key) && after.contains_key(key) && after[key]
                == tick
        }),
        forall|key: TimerKey| #[trigger]
            armed.contains_key(key) && armed[key] <= horizon ==> fires_in(fired, key)
                && !after.contains_key(key),
        forall|key: TimerKey| #[trigger]
            armed.contains_key(key) && armed[key] > horizon ==> !fires_in(fired, key)
                && after.contains_key(key) && after[key] == armed[key],
        forall|i: int, j: int|
            0 <= i < j < fired.len() ==> (#[trigger] fired[i]).expire <= (#[trigger] fired[j]).expire,
        forall|i: int, j: int|
            0 <= i < j < fired.len() ==> (#[trigger] fired[i]).spec_key() != (
            #[trigger] fired[j]).spec_key(),
{
    let before = with_queued(armed, time, items);
    let event = event_of(items[place]);
    let key = event.spec_key();
    assert(fired.skip(0) =~= fired);
    lemma_queued_at(armed, time, items, place);
    lemma_taken(before, horizon as int, fired, after, key);
    assert forall|key: TimerKey| #[trigger] armed.contains_key(key) && armed[key]
        <= horizon implies fires_in(fired, key) && !after.contains_key(key) by {
        lemma_armed_stays(armed, time, items, key);
        lemma_taken(before, horizon as int, fired, after, key);
    }
    assert forall|key: TimerKey| #[trigger] armed.contains_key(key) && armed[key]
        > horizon implies !fires_in(fired, key) && after.contains_key(key) && after[key]
        == armed[key] by {
        lemma_armed_stays(armed, time, items, key);
        lemma_taken(before, horizon as int, fired, after, key);
    }
}

/// A timer is among those that fired.
pub open spec fn fires_in(fired: Seq<TimerEvent>, key: TimerKey) -> bool {
    exists|i: int|
        0 <= i < fired.len() && (#[trigger] fired[i]).handle == key.handle && fired[i].session
            == key.session
}

proof fn lemma_taken(
    before: Map<TimerKey, u64>,
    horizon: int,
    fired: Seq<TimerEvent>,
    after: Map<TimerKey, u64>,
    key: TimerKey,
)
    requires
        before.contains_key(key),
        fired.skip(0) == fired,
        fired_by(before, horizon, Seq::empty(), fired, after),
    ensures
        before[key] <= horizon ==> fires_in(fired, key) && !after.contains_key(key),
        before[key] > horizon ==> !fires_in(fired, key) && after.contains_key(key) && after[key]
            == before[key],
{
    if before[key] <= horizon {
        assert(!after.contains_key(key));
        let i = choose|i: int| 0 <= i < fired.len() && #[trigger] fired[i].spec_key() == key;
        assert(fired[i].handle == key.handle);
    } else {
        if fires_in(fired, key) {
            let i = choose|i: int|
                0 <= i < fired.len() && (#[trigger] fired[i]).handle == key.handle
                    && fired[i].session == key.session;
            assert(fired[i].spec_key() == key);
            assert(fired[i].expire <= horizon);
            assert(before.contains_pair(fired[i].spec_key(), fired[i].expire));
        }
        assert(after.contains_key(key)) by {
            if exists|i: int| 0 <= i < fired.len() && #[trigger] fired[i].spec_key() == key {
                let i = choose|i: int|
                    0 <= i < fired.len() && #[trigger] fired[i].spec_key() == key;
                assert(fired[i].handle == key.handle);
            }
        }
    }
}

proof fn lemma_queued_at(
    armed: Map<TimerKey, u64>,
    time: u64,
    items: Seq<(u32, u64, u64)>,
    place: int,
)
    requires
        fresh(armed, items),
        0 <= place < items.len(),
    ensures
        with_queued(armed, time, items).contains_key(event_of(items[place]).spec_key()),
        with_queued(armed, time, items)[event_of(items[place]).spec_key()] == (if items[place].2
            <= time {
            time
        } else {
            items[place].2
        }),
    decreases items.len(),
{
    if place < items.len() - 1 {
        let rest = items.drop_last();
        assert(rest[place] == items[place]);
        assert forall|i: int| 0 <= i < rest.len() implies !armed.contains_key(
            #[trigger] event_of(rest[i]).spec_key(),
        ) by {
            assert(rest[i] == items[i]);
        }
        assert forall|i: int, j: int| 0 <= i < j < rest.len() implies #[trigger] event_of(
            rest[i],
        ).spec_key() != #[trigger] event_of(rest[j]).spec_key() by {
            assert(rest[i] == items[i] && rest[j] == items[j]);
        }
        lemma_queued_at(armed, time, rest, place);
        assert(event_of(items[place]).spec_key() != event_of(
            items[items.len() - 1],
        ).spec_key());
    }
}

proof fn lemma_armed_stays(
    armed: Map<TimerKey, u64>,
    time: u64,
    items: Seq<(u32, u64, u64)>,
    key: TimerKey,
)
    requires
        fresh(armed, items),
        armed.contains_key(key),
    ensures
        with_queued(armed, time, items).contains_key(key),
        with_queued(armed, time, items)[key] == armed[key],
    decreases items.len(),
{
    if items.len() > 0 {
        let rest = items.drop_last();
        assert forall|i: int| 0 <= i < rest.len() implies !armed.contains_key(
            #[trigger] event_of(rest[i]).spec_key(),
        ) by {
            assert(rest[i] == items[i]);
        }
        assert forall|i: int, j: int| 0 <= i < j < rest.len() implies #[trigger] event_of(
            rest[i],
        ).spec_key() != #[trigger] event_of(rest[j]).spec_key() by {
            assert(rest[i] == items[i] && rest[j] == items[j]);
        }
        lemma_armed_stays(armed, time, rest, key);
        assert(!armed.contains_key(event_of(items[items.len() - 1]).spec_key()));
    }
}

} // verus!
