//! Hierarchical timing wheel.
//!
//! One tick is 10 ms. The near wheel has 256 slots, one per tick; above it
//! stand ten levels of 64 slots, each slot of a level as wide as the whole
//! level below. Together they cover every `u64` tick. A location index makes
//! cancelling a timer a constant time operation.

use std::collections::HashMap;
use vstd::prelude::*;

verus! {

broadcast use vstd::std_specs::hash::group_hash_axioms;

/// Slots of the near wheel.
pub const TIME_NEAR: usize = 256;

/// Slots of one level.
pub const TIME_LEVEL: usize = 64;

/// Number of levels: 8 near bits and ten times 6 level bits cover 68 bits.
pub const TIME_LEVELS: usize = 10;

/// Identifies one sleep timer inside a node.
#[derive(Debug, Clone, Copy, PartialEq, Eq, Structural, Hash)]
pub struct TimerKey {
    pub handle: u32,
    pub session: u64,
}

/// An armed timer: at tick `expire`, answer `session` of service `handle`.
#[derive(Debug, Clone, Copy, PartialEq, Eq, Structural)]
pub struct TimerEvent {
    pub handle: u32,
    pub session: u64,
    pub expire: u64,
}

impl TimerKey {
    /// The key as one integer.
    pub open spec fn spec_id(self) -> u128 {
        (self.handle as int * 0x1_0000_0000_0000_0000 + self.session as int) as u128
    }

    /// The key as one integer: handle above session.
    pub fn id(self) -> (id: u128)
        ensures
            id == self.spec_id(),
    {
        self.handle as u128 * 0x1_0000_0000_0000_0000 + self.session as u128
    }
}

/// Two keys with one integer form are one key.
proof fn lemma_id_injective(a: TimerKey, b: TimerKey)
    requires
        a.spec_id() == b.spec_id(),
    ensures
        a == b,
{
    let x = a.handle as int * 0x1_0000_0000_0000_0000 + a.session as int;
    let y = b.handle as int * 0x1_0000_0000_0000_0000 + b.session as int;
    assert(0 <= x <= u128::MAX);
    assert(0 <= y <= u128::MAX);
    assert(x == y);
    assert(a.handle == b.handle);
}

impl TimerEvent {
    /// Key of the event.
    pub open spec fn spec_key(self) -> TimerKey {
        TimerKey { handle: self.handle, session: self.session }
    }

    /// The key under which the event can be cancelled.
    pub fn key(self) -> (key: TimerKey)
        ensures
            key == self.spec_key(),
    {
        TimerKey { handle: self.handle, session: self.session }
    }
}

/// Where an event is stored.
#[derive(Debug, Clone, Copy)]
pub enum Location {
    Near { slot: usize, index: usize },
    Level { level: usize, slot: usize, index: usize },
}

/// Number of the block of level `level` that tick `x` lies in: a block of
/// level 0 is one turn of the near wheel, a block of a higher level is one
/// turn of the level below it.
pub open spec fn block(x: int, level: nat) -> int
    decreases level,
{
    if level == 0 {
        x / 256
    } else {
        block(x, (level - 1) as nat) / 64
    }
}

/// The wheel.
pub struct Wheel {
    /// Current tick.
    pub time: u64,
    pub near: Vec<Vec<TimerEvent>>,
    pub levels: Vec<Vec<Vec<TimerEvent>>>,
    pub locations: HashMap<u128, Location>,
}

impl View for Wheel {
    type V = Map<TimerKey, u64>;

    /// The armed timers and the tick each of them expires at.
    open spec fn view(&self) -> Map<TimerKey, u64> {
        Map::new(
            |k: TimerKey| self.locations@.contains_key(k.spec_id()),
            |k: TimerKey| self.at(self.locations@[k.spec_id()]).expire,
        )
    }
}

impl Wheel {
    /// The event stored at a location.
    pub open spec fn at(&self, location: Location) -> TimerEvent {
        match location {
            Location::Near { slot, index } => self.near@[slot as int]@[index as int],
            Location::Level { level, slot, index } =>
                self.levels@[level as int]@[slot as int]@[index as int],
        }
    }

    /// A location that holds an event.
    pub open spec fn holds(&self, location: Location) -> bool {
        match location {
            Location::Near { slot, index } => slot < 256 && index < self.near@[slot as int]@.len(),
            Location::Level { level, slot, index } => level < 10 && slot < 64 && index
                < self.levels@[level as int]@[slot as int]@.len(),
        }
    }

    /// Numbers of slots and levels.
    pub open spec fn shape(&self) -> bool {
        &&& self.near@.len() == 256
        &&& self.levels@.len() == 10
        &&& forall|l: int| 0 <= l < 10 ==> (#[trigger] self.levels@[l])@.len() == 64
    }

    /// The location index names exactly the stored events.
    pub open spec fn indexed(&self) -> bool {
        &&& forall|id: u128| #[trigger] self.locations@.contains_key(id) ==> {
            &&& self.holds(self.locations@[id])
            &&& self.at(self.locations@[id]).spec_key().spec_id() == id
        }
        &&& forall|loc: Location| #[trigger] self.holds(loc) ==> {
            &&& self.locations@.contains_key(self.at(loc).spec_key().spec_id())
            &&& self.locations@[self.at(loc).spec_key().spec_id()] == loc
        }
    }

    /// An event at a location lies where its expiry puts it.
    pub open spec fn well_placed(&self, location: Location) -> bool {
        let expire = self.at(location).expire as int;
        match location {
            Location::Near { slot, index } => {
                &&& expire >= self.time
                &&& block(expire, 0) == block(self.time as int, 0)
                &&& slot == expire % 256
            },
            Location::Level { level, slot, index } => {
                &&& block(expire, level as nat) > block(self.time as int, level as nat)
                &&& block(expire, (level + 1) as nat) == block(self.time as int, (level + 1) as nat)
                &&& slot == block(expire, level as nat) % 64
            },
        }
    }

    /// The wheel's invariant.
    pub open spec fn wf(&self) -> bool {
        &&& self.shape()
        &&& self.indexed()
        &&& forall|loc: Location| #[trigger] self.holds(loc) ==> self.well_placed(loc)
    }

    /// An empty wheel at tick 0.
    pub fn new() -> (wheel: Self)
        ensures
            wheel.wf(),
            wheel.time == 0,
            wheel@ == Map::<TimerKey, u64>::empty(),
    {
        Self::starting_at(0)
    }

    /// An empty wheel at a given tick.
    pub fn starting_at(time: u64) -> (wheel: Self)
        ensures
            wheel.wf(),
            wheel.time == time,
            wheel@ == Map::<TimerKey, u64>::empty(),
    {
        let near = empty_slots(TIME_NEAR);
        let mut levels: Vec<Vec<Vec<TimerEvent>>> = Vec::new();
        while levels.len() < TIME_LEVELS
            invariant
                levels@.len() <= 10,
                forall|l: int| 0 <= l < levels@.len() ==> (#[trigger] levels@[l])@.len() == 64,
                forall|l: int, s: int|
                    0 <= l < levels@.len() && 0 <= s < 64 ==> (#[trigger] levels@[l]@[s])@.len() == 0,
            decreases 10 - levels@.len(),
        {
            levels.push(empty_slots(TIME_LEVEL));
        }
        let wheel = Wheel { time, near, levels, locations: HashMap::new() };
        assert(wheel@ =~= Map::<TimerKey, u64>::empty());
        wheel
    }

    /// Puts an event where its expiry says; one that is already due goes to
    /// the current tick. The key must not be armed.
    pub fn add(&mut self, event: TimerEvent)
        requires
            old(self).wf(),
            !old(self)@.contains_key(event.spec_key()),
        ensures
            final(self).wf(),
            final(self).time == old(self).time,
            final(self)@ == old(self)@.insert(
                event.spec_key(),
                if event.expire <= old(self).time {
                    old(self).time
                } else {
                    event.expire
                },
            ),
    {
        let mut event = event;
        if event.expire <= self.time {
            event.expire = self.time;
        }
        let expire: u64 = event.expire;
        let current: u64 = self.time;
        let ghost before = *self;
        let mut expire_block: u64 = expire / 256;
        let mut current_block: u64 = current / 256;
        if expire_block == current_block {
            let slot: usize = (expire % 256) as usize;
            let index: usize = self.near[slot].len();
            let location = Location::Near { slot, index };
            self.near[slot].push(event);
            self.locations.insert(event.key().id(), location);
            proof {
                before.lemma_stored(*self, event, location);
            }
            return;
        }
        let mut level: usize = 0;
        proof {
            lemma_top_block(expire as int);
            lemma_top_block(current as int);
            lemma_block_monotone(current as int, expire as int, 0);
        }
        while expire_block / 64 != current_block / 64
            invariant
                level < 10,
                expire_block == block(expire as int, level as nat),
                current_block == block(current as int, level as nat),
                expire_block > current_block,
                expire >= current,
                block(expire as int, 10) == 0,
                block(current as int, 10) == 0,
            decreases 10 - level,
        {
            proof {
                lemma_block_monotone(current as int, expire as int, (level + 1) as nat);
            }
            expire_block = expire_block / 64;
            current_block = current_block / 64;
            level = level + 1;
        }
        let slot: usize = (expire_block % 64) as usize;
        let index: usize = self.levels[level][slot].len();
        let location = Location::Level { level, slot, index };
        self.levels[level][slot].push(event);
        self.locations.insert(event.key().id(), location);
        proof {
            before.lemma_stored(*self, event, location);
        }
    }

    /// `after` is this wheel with one more event at a fresh location.
    proof fn lemma_stored(self, after: Wheel, event: TimerEvent, location: Location)
        requires
            self.wf(),
            !self@.contains_key(event.spec_key()),
            after.time == self.time,
            after.shape(),
            after.locations@ == self.locations@.insert(event.spec_key().spec_id(), location),
            !self.holds(location),
            forall|loc: Location| #[trigger]
                after.holds(loc) <==> self.holds(loc) || loc == location,
            forall|loc: Location| #[trigger] self.holds(loc) ==> after.at(loc) == self.at(loc),
            after.at(location) == event,
            after.well_placed(location),
        ensures
            after.wf(),
            after@ == self@.insert(event.spec_key(), event.expire),
    {
        let id = event.spec_key().spec_id();
        assert(!self.locations@.contains_key(id));
        assert forall|k: TimerKey| k.spec_id() == id implies k == event.spec_key() by {
            lemma_id_injective(k, event.spec_key());
        }
        assert forall|loc: Location| #[trigger] after.holds(loc) implies {
            &&& after.locations@.contains_key(after.at(loc).spec_key().spec_id())
            &&& after.locations@[after.at(loc).spec_key().spec_id()] == loc
            &&& after.well_placed(loc)
        } by {
            if loc != location {
                assert(self.holds(loc));
                assert(self.well_placed(loc));
            }
        }
        assert(after@ =~= self@.insert(event.spec_key(), event.expire));
    }

    /// Takes a timer out. One that has fired, was cancelled or never existed
    /// is ignored.
    pub fn cancel(&mut self, key: TimerKey)
        requires
            old(self).wf(),
        ensures
            final(self).wf(),
            final(self).time == old(self).time,
            final(self)@ == old(self)@.remove(key),
    {
        let ghost before = *self;
        let id: u128 = key.id();
        match self.locations.remove(&id) {
            None => {
                assert(self.locations@ =~= before.locations@);
                assert forall|loc: Location| #[trigger] self.holds(loc) implies {
                    &&& before.holds(loc)
                    &&& self.well_placed(loc)
                } by {
                    assert(before.holds(loc));
                    assert(before.well_placed(loc));
                }
                assert(self@ =~= before@.remove(key));
            },
            Some(location) => {
                assert(before.holds(location));
                match location {
                    Location::Near { slot, index } => {
                        let end: usize = self.near[slot].len() - 1;
                        self.near[slot].swap_remove(index);
                        if index < end {
                            let moved = self.near[slot][index];
                            self.locations.insert(moved.key().id(), location);
                        }
                        proof {
                            let last = Location::Near { slot, index: end };
                            assert(before.holds(last));
                            assert(before.well_placed(last));
                            before.lemma_swapped_out(*self, key, location, last);
                        }
                    },
                    Location::Level { level, slot, index } => {
                        let end: usize = self.levels[level][slot].len() - 1;
                        self.levels[level][slot].swap_remove(index);
                        if index < end {
                            let moved = self.levels[level][slot][index];
                            self.locations.insert(moved.key().id(), location);
                        }
                        proof {
                            let last = Location::Level { level, slot, index: end };
                            assert(before.holds(last));
                            assert(before.well_placed(last));
                            before.lemma_swapped_out(*self, key, location, last);
                        }
                    },
                }
            },
        }
    }

    /// `after` is this wheel without the event at `location`, its place taken
    /// by the event that was at `last`.
    proof fn lemma_swapped_out(
        self,
        after: Wheel,
        key: TimerKey,
        location: Location,
        last: Location,
    )
        requires
            self.wf(),
            self.locations@.contains_key(key.spec_id()),
            self.locations@[key.spec_id()] == location,
            self.holds(last),
            after.time == self.time,
            after.shape(),
            after.locations@ == (if location == last {
                self.locations@.remove(key.spec_id())
            } else {
                self.locations@.remove(key.spec_id()).insert(
                    self.at(last).spec_key().spec_id(),
                    location,
                )
            }),
            forall|loc: Location| #[trigger]
                after.holds(loc) <==> self.holds(loc) && loc != last,
            forall|loc: Location| #[trigger]
                after.holds(loc) && loc != location ==> after.at(loc) == self.at(loc),
            location != last ==> after.at(location) == self.at(last),
            location != last ==> after.well_placed(location),
        ensures
            after.wf(),
            after@ == self@.remove(key),
    {
        let id = key.spec_id();
        assert(self.at(location).spec_key().spec_id() == id);
        lemma_id_injective(self.at(location).spec_key(), key);
        assert forall|k: TimerKey| k.spec_id() == id implies k == key by {
            lemma_id_injective(k, key);
        }
        assert forall|loc: Location| #[trigger] after.holds(loc) implies {
            &&& after.locations@.contains_key(after.at(loc).spec_key().spec_id())
            &&& after.locations@[after.at(loc).spec_key().spec_id()] == loc
            &&& after.well_placed(loc)
        } by {
            assert(self.holds(loc));
            assert(self.well_placed(loc));
        }
        assert forall|i: u128| #[trigger] after.locations@.contains_key(i) implies {
            &&& after.holds(after.locations@[i])
            &&& after.at(after.locations@[i]).spec_key().spec_id() == i
        } by {
            assert(self.locations@.contains_key(i));
            assert(self.holds(self.locations@[i]));
            assert(after.holds(location) <==> self.holds(location) && location != last);
        }
        assert(after@ =~= self@.remove(key)) by {
            assert forall|k: TimerKey| #[trigger] after@.contains_key(k) implies after@[k]
                == self@[k] by {
                assert(self.locations@.contains_key(k.spec_id()));
            }
        }
    }

    /// Forgets the locations of events that were taken out.
    fn forget(&mut self, events: &Vec<TimerEvent>)
        ensures
            final(self).time == old(self).time,
            final(self).near == old(self).near,
            final(self).levels == old(self).levels,
            forall|id: u128| #[trigger]
                final(self).locations@.contains_key(id) <==> {
                    &&& old(self).locations@.contains_key(id)
                    &&& !exists|i: int|
                        0 <= i < events@.len() && #[trigger] events@[i].spec_key().spec_id() == id
                },
            forall|id: u128| #[trigger]
                final(self).locations@.contains_key(id) ==> final(self).locations@[id]
                    == old(self).locations@[id],
    {
        let mut i: usize = 0;
        while i < events.len()
            invariant
                i <= events@.len(),
                self.time == old(self).time,
                self.near == old(self).near,
                self.levels == old(self).levels,
                forall|id: u128| #[trigger]
                    self.locations@.contains_key(id) <==> {
                        &&& old(self).locations@.contains_key(id)
                        &&& !exists|j: int|
                            0 <= j < i && #[trigger] events@[j].spec_key().spec_id() == id
                    },
                forall|id: u128| #[trigger]
                    self.locations@.contains_key(id) ==> self.locations@[id]
                        == old(self).locations@[id],
            decreases events@.len() - i,
        {
            let ghost earlier = self.locations@;
            let id: u128 = events[i].key().id();
            self.locations.remove(&id);
            proof {
                assert(self.locations@ =~= earlier.remove(id));
                assert forall|x: u128| #[trigger] self.locations@.contains_key(x) <==> {
                    &&& old(self).locations@.contains_key(x)
                    &&& !exists|j: int|
                        0 <= j < i + 1 && #[trigger] events@[j].spec_key().spec_id() == x
                } by {
                    if x == id {
                        assert(events@[i as int].spec_key().spec_id() == x);
                    }
                }
            }
            i = i + 1;
        }
    }

    /// Empties one slot of the near wheel.
    fn take_near(&mut self, slot: usize) -> (events: Vec<TimerEvent>)
        requires
            old(self).wf(),
            slot < 256,
        ensures
            final(self).wf(),
            final(self).time == old(self).time,
            events@ == old(self).near@[slot as int]@,
            final(self).near@[slot as int]@.len() == 0,
            final(self).levels == old(self).levels,
            took(old(self)@, events@, final(self)@),
    {
        let ghost before = *self;
        let mut events: Vec<TimerEvent> = Vec::new();
        std::mem::swap(&mut events, &mut self.near[slot]);
        self.forget(&events);
        proof {
            let taken = Seq::new(
                events.len() as nat,
                |i: int| Location::Near { slot, index: i as usize },
            );
            assert forall|loc: Location| #[trigger] taken.contains(loc) <==> before.holds(loc)
                && loc is Near && loc->Near_slot == slot by {
                if before.holds(loc) && loc is Near && loc->Near_slot == slot {
                    assert(taken[loc->Near_index as int] == loc);
                }
            }
            before.lemma_emptied(*self, events@, taken);
        }
        events
    }

    /// Empties one slot of a level.
    fn take_level(&mut self, level: usize, slot: usize) -> (events: Vec<TimerEvent>)
        requires
            old(self).wf(),
            level < 10,
            slot < 64,
        ensures
            final(self).wf(),
            final(self).time == old(self).time,
            events@ == old(self).levels@[level as int]@[slot as int]@,
            final(self).levels@[level as int]@[slot as int]@.len() == 0,
            took(old(self)@, events@, final(self)@),
    {
        let ghost before = *self;
        let mut events: Vec<TimerEvent> = Vec::new();
        std::mem::swap(&mut events, &mut self.levels[level][slot]);
        self.forget(&events);
        proof {
            let taken = Seq::new(
                events.len() as nat,
                |i: int| Location::Level { level, slot, index: i as usize },
            );
            assert forall|loc: Location| #[trigger] taken.contains(loc) <==> before.holds(loc)
                && loc is Level && loc->Level_slot == slot && loc->level == level by {
                if before.holds(loc) && loc is Level && loc->Level_slot == slot && loc->level
                    == level {
                    assert(taken[loc->Level_index as int] == loc);
                }
            }
            before.lemma_emptied(*self, events@, taken);
        }
        events
    }

    /// `after` is this wheel without the events at the locations `taken`.
    proof fn lemma_emptied(self, after: Wheel, events: Seq<TimerEvent>, taken: Seq<Location>)
        requires
            self.wf(),
            after.shape(),
            after.time == self.time,
            taken.len() == events.len(),
            taken.no_duplicates(),
            forall|i: int|
                0 <= i < taken.len() ==> {
                    &&& self.holds(#[trigger] taken[i])
                    &&& self.at(taken[i]) == events[i]
                },
            forall|loc: Location| #[trigger]
                after.holds(loc) <==> self.holds(loc) && !taken.contains(loc),
            forall|loc: Location| #[trigger] after.holds(loc) ==> after.at(loc) == self.at(loc),
            forall|id: u128| #[trigger]
                after.locations@.contains_key(id) <==> {
                    &&& self.locations@.contains_key(id)
                    &&& !exists|i: int|
                        0 <= i < events.len() && #[trigger] events[i].spec_key().spec_id() == id
                },
            forall|id: u128| #[trigger]
                after.locations@.contains_key(id) ==> after.locations@[id] == self.locations@[id],
        ensures
            after.wf(),
            took(self@, events, after@),
    {
        assert forall|i: int| 0 <= i < events.len() implies {
            let id = #[trigger] events[i].spec_key().spec_id();
            self.locations@.contains_key(id) && self.locations@[id] == taken[i]
        } by {
            assert(self.holds(taken[i]));
        }
        assert forall|loc: Location| #[trigger] after.holds(loc) implies {
            &&& after.locations@.contains_key(after.at(loc).spec_key().spec_id())
            &&& after.locations@[after.at(loc).spec_key().spec_id()] == loc
            &&& after.well_placed(loc)
        } by {
            assert(self.holds(loc));
            let id = after.at(loc).spec_key().spec_id();
            if exists|i: int|
                0 <= i < events.len() && #[trigger] events[i].spec_key().spec_id() == id {
                let i = choose|i: int|
                    0 <= i < events.len() && #[trigger] events[i].spec_key().spec_id() == id;
                assert(self.locations@[id] == taken[i]);
                assert(taken.contains(loc));
            }
            assert(after.locations@.contains_key(id));
            assert(self.well_placed(loc));
            assert(after.well_placed(loc));
        }
        assert forall|id: u128| #[trigger] after.locations@.contains_key(id) implies {
            &&& after.holds(after.locations@[id])
            &&& after.at(after.locations@[id]).spec_key().spec_id() == id
        } by {
            let loc = self.locations@[id];
            assert(self.holds(loc));
            if taken.contains(loc) {
                let i = choose|i: int| 0 <= i < taken.len() && taken[i] == loc;
                assert(events[i].spec_key().spec_id() == id);
            }
        }
        assert forall|i: int, j: int| 0 <= i < j < events.len() implies #[trigger] events[i].spec_key()
            != #[trigger] events[j].spec_key() by {
            assert(events[i].spec_key().spec_id() == self.at(taken[i]).spec_key().spec_id());
        }
        assert forall|k: TimerKey| #[trigger] after@.contains_key(k) <==> self@.contains_key(k)
            && !exists|i: int| 0 <= i < events.len() && #[trigger] events[i].spec_key() == k by {
            if exists|i: int|
                0 <= i < events.len() && #[trigger] events[i].spec_key().spec_id() == k.spec_id() {
                let i = choose|i: int|
                    0 <= i < events.len() && #[trigger] events[i].spec_key().spec_id()
                        == k.spec_id();
                lemma_id_injective(events[i].spec_key(), k);
            }
        }
        assert forall|k: TimerKey| #[trigger] after@.contains_key(k) implies after@[k] == self@[k] by {
            assert(after.locations@.contains_key(k.spec_id()));
        }
    }

    /// The wheel with its clock set to `time`, nothing else changed.
    spec fn at_time(self, time: u64) -> Wheel {
        Wheel { time, near: self.near, levels: self.levels, locations: self.locations }
    }

    /// No armed timer expires before the current tick.
    pub proof fn lemma_none_overdue(self)
        requires
            self.wf(),
        ensures
            forall|k: TimerKey| #[trigger] self@.contains_key(k) ==> self@[k] >= self.time,
    {
        assert forall|k: TimerKey| #[trigger] self@.contains_key(k) implies self@[k]
            >= self.time by {
            let loc = self.locations@[k.spec_id()];
            assert(self.locations@.contains_key(k.spec_id()));
            assert(self.holds(loc));
            assert(self.well_placed(loc));
            if loc is Level {
                lemma_later_block(self@[k] as int, self.time as int, loc->level as nat);
            }
        }
    }

    /// Moves the clock one tick on and spreads the events of the slot that
    /// the clock has reached, if there is one, over the finer slots below.
    /// The timers that are due now must have been taken out.
    pub fn shift(&mut self)
        requires
            old(self).wf(),
            forall|k: TimerKey| #[trigger]
                old(self)@.contains_key(k) ==> old(self)@[k] != old(self).time,
        ensures
            final(self).wf(),
            final(self).time == (if old(self).time == u64::MAX {
                0
            } else {
                (old(self).time + 1) as u64
            }),
            final(self)@ == old(self)@,
    {
        let ghost before = *self;
        proof {
            self.lemma_none_overdue();
        }
        if self.time == u64::MAX {
            self.time = 0;
            proof {
                assert forall|loc: Location| !#[trigger] before.holds(loc) by {
                    if before.holds(loc) {
                        let k = before.at(loc).spec_key();
                        assert(before.locations@.contains_key(k.spec_id()));
                        assert(before@.contains_key(k));
                    }
                }
                assert forall|loc: Location| !#[trigger] self.holds(loc) by {
                    assert(!before.holds(loc));
                }
                assert(self@ =~= before@);
            }
            return;
        }
        let next: u64 = self.time + 1;
        if next % 256 != 0 {
            self.time = next;
            proof {
                before.lemma_same_turn(next);
            }
            return;
        }
        let mut blocks: u64 = next / 256;
        let mut level: usize = 0;
        proof {
            lemma_top_block(next as int);
        }
        while blocks % 64 == 0
            invariant
                level < 10,
                0 < next,
                blocks == block(next as int, level as nat),
                blocks > 0,
                aligned(next as int, level as nat),
                block(next as int, 10) == 0,
            decreases 10 - level,
        {
            blocks = blocks / 64;
            level = level + 1;
        }
        let slot: usize = (blocks % 64) as usize;
        let events = self.take_level(level, slot);
        let ghost emptied = *self;
        self.time = next;
        proof {
            emptied.lemma_next_turn(next, level as nat);
            assert(self@ =~= emptied@);
        }
        let ghost cleared = self@;
        let mut i: usize = 0;
        while i < events.len()
            invariant
                i <= events@.len(),
                self.wf(),
                self.time == next,
                took(before@, events@, cleared),
                forall|k: int|
                    0 <= k < events@.len() ==> (#[trigger] events@[k]).expire >= next,
                forall|k: TimerKey| #[trigger]
                    self@.contains_key(k) <==> cleared.contains_key(k) || exists|j: int|
                        0 <= j < i && #[trigger] events@[j].spec_key() == k,
                forall|k: TimerKey| #[trigger] self@.contains_key(k) ==> self@[k] == before@[k],
            decreases events@.len() - i,
        {
            let ghost earlier = self@;
            self.add(events[i]);
            proof {
                assert forall|k: TimerKey| #[trigger] self@.contains_key(k) <==> cleared.contains_key(
                    k,
                ) || exists|j: int|
                    0 <= j < i + 1 && #[trigger] events@[j].spec_key() == k by {
                    if k == events@[i as int].spec_key() {
                        assert(events@[i as int].spec_key() == k);
                    }
                }
            }
            i = i + 1;
        }
        assert(self@ =~= before@);
    }

    /// Inside one turn of the near wheel the clock moves on and nothing else
    /// has to.
    proof fn lemma_same_turn(self, next: u64)
        requires
            self.wf(),
            self.time < u64::MAX,
            next == self.time + 1,
            next % 256 != 0,
            forall|k: TimerKey| #[trigger] self@.contains_key(k) ==> self@[k] != self.time,
        ensures
            self.at_time(next).wf(),
            self.at_time(next)@ == self@,
    {
        let after = self.at_time(next);
        assert forall|l: nat| #[trigger] block(next as int, l) == block(self.time as int, l) by {
            lemma_same_blocks(next as int, 0, l);
        }
        assert forall|loc: Location| #[trigger] after.holds(loc) implies after.well_placed(loc)
            && self.holds(loc) by {
            assert(self.holds(loc));
            assert(self.well_placed(loc));
            assert(self@.contains_key(self.at(loc).spec_key()));
        }
        assert(after@ =~= self@);
    }

    /// At a turn of the near wheel that is also a turn of the levels below
    /// `level`, and with the slot reached at `level` empty, the clock moves on
    /// and nothing else has to.
    proof fn lemma_next_turn(self, next: u64, level: nat)
        requires
            self.wf(),
            self.time < u64::MAX,
            next == self.time + 1,
            level < 10,
            aligned(next as int, level),
            block(next as int, level) % 64 != 0,
            self.levels@[level as int]@[block(next as int, level) % 64]@.len() == 0,
            forall|k: TimerKey| #[trigger] self@.contains_key(k) ==> self@[k] != self.time,
        ensures
            self.at_time(next).wf(),
            self.at_time(next)@ == self@,
    {
        let after = self.at_time(next);
        assert forall|loc: Location| #[trigger] after.holds(loc) implies after.well_placed(loc)
            && self.holds(loc) by {
            assert(self.holds(loc));
            assert(self.well_placed(loc));
            assert(self@.contains_key(self.at(loc).spec_key()));
            let expire = self.at(loc).expire as int;
            match loc {
                Location::Near { slot, index } => {
                    lemma_turned_blocks(next as int, level, 0);
                },
                Location::Level { level: l, slot, index } => {
                    if l < level {
                        lemma_turned_blocks(next as int, level, l as nat);
                        lemma_turned_blocks(next as int, level, (l + 1) as nat);
                        lemma_turned_digit(next as int, level, l as nat);
                    } else {
                        lemma_turned_blocks(next as int, level, level);
                        lemma_same_blocks(next as int, level + 1, (l + 1) as nat);
                        if l > level {
                            lemma_same_blocks(next as int, level + 1, l as nat);
                        }
                    }
                },
            }
        }
        assert(after@ =~= self@);
    }

    /// Takes out every timer that expires at the current tick.
    pub fn execute(&mut self, out: &mut Vec<TimerEvent>)
        requires
            old(self).wf(),
        ensures
            final(self).wf(),
            final(self).time == old(self).time,
            fired_by(old(self)@, old(self).time as int, old(out)@, final(out)@, final(self)@),
    {
        let ghost before = *self;
        let slot: usize = (self.time % 256) as usize;
        let mut events = self.take_near(slot);
        let ghost taken = events@;
        proof {
            before.lemma_none_overdue();
            assert forall|i: int| 0 <= i < taken.len() implies (#[trigger] taken[i]).expire
                == before.time by {
                let loc = Location::Near { slot, index: i as usize };
                assert(i < before.near@[slot as int].len());
                assert(before.holds(loc));
                assert(before.well_placed(loc));
            }
            assert forall|k: TimerKey| #[trigger] before@.contains_key(k) && before@[k]
                <= before.time implies exists|i: int|
                0 <= i < taken.len() && #[trigger] taken[i].spec_key() == k by {
                let loc = before.locations@[k.spec_id()];
                assert(before.locations@.contains_key(k.spec_id()));
                assert(before.holds(loc));
                assert(before.well_placed(loc));
                lemma_id_injective(before.at(loc).spec_key(), k);
                match loc {
                    Location::Near { slot: s, index } => {
                        assert(taken[index as int].spec_key() == k);
                    },
                    Location::Level { level, slot: s, index } => {
                        lemma_later_block(before@[k] as int, before.time as int, level as nat);
                    },
                }
            }
        }
        out.append(&mut events);
        assert(out@ =~= old(out)@ + taken);
        assert(out@.skip(old(out)@.len() as int) =~= taken);
    }

    /// Moves the clock `ticks` ticks on and takes out every timer that
    /// expires on the way, in the order of their expiry.
    pub fn advance(&mut self, ticks: u64, out: &mut Vec<TimerEvent>)
        requires
            old(self).wf(),
            old(self).time + ticks <= u64::MAX,
        ensures
            final(self).wf(),
            final(self).time == old(self).time + ticks,
            fired_by(
                old(self)@,
                old(self).time + ticks,
                old(out)@,
                final(out)@,
                final(self)@,
            ),
    {
        self.execute(out);
        let mut done: u64 = 0;
        while done < ticks
            invariant
                done <= ticks,
                self.wf(),
                old(self).time + ticks <= u64::MAX,
                self.time == old(self).time + done,
                fired_by(old(self)@, old(self).time + done, old(out)@, out@, self@),
            decreases ticks - done,
        {
            let ghost first = out@;
            let ghost remaining = self@;
            self.shift();
            self.execute(out);
            proof {
                lemma_fired_in_turn(
                    old(self)@,
                    old(self).time + done,
                    old(self).time + done + 1,
                    old(out)@,
                    first,
                    remaining,
                    out@,
                    self@,
                );
            }
            done = done + 1;
        }
    }

    /// No timer is armed.
    pub fn is_empty(&self) -> (empty: bool)
        requires
            self.wf(),
        ensures
            empty == (self@ == Map::<TimerKey, u64>::empty()),
    {
        let empty = self.locations.is_empty();
        proof {
            if empty {
                assert forall|k: TimerKey| !#[trigger] self@.contains_key(k) by {
                    assert(!self.locations@.dom().contains(k.spec_id()));
                }
                assert(self@ =~= Map::<TimerKey, u64>::empty());
            } else {
                let id = self.locations@.dom().choose();
                assert(self.locations@.contains_key(id));
                assert(self@.contains_key(self.at(self.locations@[id]).spec_key()));
            }
        }
        empty
    }

    /// The tick at which a timer expires, if it is armed.
    pub fn expiry(&self, key: TimerKey) -> (expire: Option<u64>)
        requires
            self.wf(),
        ensures
            expire == (if self@.contains_key(key) {
                Some(self@[key])
            } else {
                None
            }),
    {
        let id: u128 = key.id();
        match self.locations.get(&id) {
            None => None,
            Some(location) => {
                assert(self.holds(*location));
                match *location {
                    Location::Near { slot, index } => Some(self.near[slot][index].expire),
                    Location::Level { level, slot, index } => Some(
                        self.levels[level][slot][index].expire,
                    ),
                }
            },
        }
    }
}

/// `out` is `earlier` followed by exactly the timers of `before` that expire
/// at `horizon` or earlier, in the order of their expiry; `after` is what
/// stays armed.
pub open spec fn fired_by(
    before: Map<TimerKey, u64>,
    horizon: int,
    earlier: Seq<TimerEvent>,
    out: Seq<TimerEvent>,
    after: Map<TimerKey, u64>,
) -> bool {
    let fired = out.skip(earlier.len() as int);
    &&& earlier.len() <= out.len()
    &&& out == earlier + fired
    &&& took(before, fired, after)
    &&& forall|i: int| 0 <= i < fired.len() ==> (#[trigger] fired[i]).expire <= horizon
    &&& forall|i: int, j: int|
        0 <= i < j < fired.len() ==> (#[trigger] fired[i]).expire <= (#[trigger] fired[j]).expire
    &&& forall|k: TimerKey| #[trigger] after.contains_key(k) ==> after[k] > horizon
}

/// Timers fired in two rounds, one after the other.
proof fn lemma_fired_in_turn(
    before: Map<TimerKey, u64>,
    horizon1: int,
    horizon2: int,
    earlier: Seq<TimerEvent>,
    out1: Seq<TimerEvent>,
    middle: Map<TimerKey, u64>,
    out2: Seq<TimerEvent>,
    after: Map<TimerKey, u64>,
)
    requires
        horizon1 <= horizon2,
        fired_by(before, horizon1, earlier, out1, middle),
        fired_by(middle, horizon2, out1, out2, after),
    ensures
        fired_by(before, horizon2, earlier, out2, after),
{
    let first = out1.skip(earlier.len() as int);
    let second = out2.skip(out1.len() as int);
    let fired = out2.skip(earlier.len() as int);
    assert(fired =~= first + second);
    assert(out2 =~= earlier + fired);
    assert forall|i: int| 0 <= i < fired.len() implies before.contains_pair(
        (#[trigger] fired[i]).spec_key(),
        fired[i].expire,
    ) by {
        if i >= first.len() {
            assert(fired[i] == second[i - first.len()]);
            assert(middle.contains_key(second[i - first.len()].spec_key()));
        } else {
            assert(fired[i] == first[i]);
        }
    }
    assert forall|i: int, j: int| 0 <= i < j < fired.len() implies #[trigger] fired[i].spec_key()
        != #[trigger] fired[j].spec_key() && fired[i].expire <= fired[j].expire by {
        if i < first.len() && j >= first.len() {
            assert(fired[j] == second[j - first.len()]);
            assert(fired[i] == first[i]);
            assert(middle.contains_key(fired[j].spec_key()));
        } else if j < first.len() {
            assert(fired[j] == first[j] && fired[i] == first[i]);
        } else {
            assert(fired[j] == second[j - first.len()]);
            assert(fired[i] == second[i - first.len()]);
        }
    }
    assert forall|k: TimerKey| #[trigger] after.contains_key(k) <==> before.contains_key(k)
        && !exists|i: int| 0 <= i < fired.len() && #[trigger] fired[i].spec_key() == k by {
        if before.contains_key(k) && !after.contains_key(k) {
            if middle.contains_key(k) {
                let i = choose|i: int| 0 <= i < second.len() && #[trigger] second[i].spec_key() == k;
                assert(fired[i + first.len()].spec_key() == k);
            } else {
                let i = choose|i: int| 0 <= i < first.len() && #[trigger] first[i].spec_key() == k;
                assert(fired[i].spec_key() == k);
            }
        }
        if exists|i: int| 0 <= i < fired.len() && #[trigger] fired[i].spec_key() == k {
            let i = choose|i: int| 0 <= i < fired.len() && #[trigger] fired[i].spec_key() == k;
            if i < first.len() {
                assert(first[i].spec_key() == k);
            } else {
                assert(second[i - first.len()].spec_key() == k);
            }
        }
    }
}

/// `x` is the first tick of a block of level `level`.
pub open spec fn aligned(x: int, level: nat) -> bool
    decreases level,
{
    if level == 0 {
        x % 256 == 0
    } else {
        aligned(x, (level - 1) as nat) && block(x, (level - 1) as nat) % 64 == 0
    }
}

/// `events` were armed in `before`; `after` is `before` without them.
pub open spec fn took(
    before: Map<TimerKey, u64>,
    events: Seq<TimerEvent>,
    after: Map<TimerKey, u64>,
) -> bool {
    &&& forall|i: int|
        0 <= i < events.len() ==> before.contains_pair(
            (#[trigger] events[i]).spec_key(),
            events[i].expire,
        )
    &&& forall|i: int, j: int|
        0 <= i < j < events.len() ==> #[trigger] events[i].spec_key()
            != #[trigger] events[j].spec_key()
    &&& forall|k: TimerKey| #[trigger]
        after.contains_key(k) <==> before.contains_key(k) && !exists|i: int|
            0 <= i < events.len() && #[trigger] events[i].spec_key() == k
    &&& forall|k: TimerKey| #[trigger] after.contains_key(k) ==> after[k] == before[k]
}

/// `expire` lies in a later block of level `level` than `time`: it is later.
proof fn lemma_later_block(expire: int, time: int, level: nat)
    requires
        0 <= expire,
        0 <= time,
        block(expire, level) > block(time, level),
    ensures
        expire > time,
    decreases level,
{
    if level > 0 {
        lemma_later_block(expire, time, (level - 1) as nat);
    }
}

/// Every `u64` tick lies in block 0 of level 10.
proof fn lemma_top_block(x: int)
    requires
        0 <= x <= u64::MAX,
    ensures
        block(x, 10) == 0,
{
    reveal_with_fuel(block, 11);
}

/// Blocks are numbered upwards.
proof fn lemma_block_monotone(x: int, y: int, level: nat)
    requires
        0 <= x <= y,
    ensures
        0 <= block(x, level) <= block(y, level),
    decreases level,
{
    if level > 0 {
        lemma_block_monotone(x, y, (level - 1) as nat);
    }
}

/// A tick that starts a block of level `level` starts a block of every lower
/// level.
proof fn lemma_aligned_below(x: int, level: nat, lower: nat)
    requires
        aligned(x, level),
        lower <= level,
    ensures
        aligned(x, lower),
        lower < level ==> block(x, lower) % 64 == 0,
    decreases level - lower,
{
    if lower < level {
        lemma_aligned_below(x, level, lower + 1);
    }
}

/// The tick before a tick that starts a block of `level` lies in the block
/// before, at `level` and below.
proof fn lemma_turned_blocks(x: int, level: nat, lower: nat)
    requires
        0 < x,
        aligned(x, level),
        lower <= level,
    ensures
        block(x - 1, lower) == block(x, lower) - 1,
    decreases lower,
{
    lemma_aligned_below(x, level, lower);
    if lower > 0 {
        lemma_turned_blocks(x, level, (lower - 1) as nat);
    }
}

/// That tick lies in the last block of its parent.
proof fn lemma_turned_digit(x: int, level: nat, lower: nat)
    requires
        0 < x,
        aligned(x, level),
        lower < level,
    ensures
        block(x - 1, lower) % 64 == 63,
{
    lemma_aligned_below(x, level, lower);
    lemma_turned_blocks(x, level, lower);
}

/// Where level `from - 1` does not turn (the near wheel, for `from` 0), the
/// levels from `from` on stay in their blocks.
proof fn lemma_same_blocks(x: int, from: nat, level: nat)
    requires
        0 < x,
        from <= level,
        from == 0 ==> x % 256 != 0,
        from > 0 ==> block(x - 1, (from - 1) as nat) == block(x, (from - 1) as nat) - 1 && block(
            x,
            (from - 1) as nat,
        ) % 64 != 0,
    ensures
        block(x - 1, level) == block(x, level),
    decreases level,
{
    if level > from {
        lemma_same_blocks(x, from, (level - 1) as nat);
    }
}

/// `count` empty slots.
fn empty_slots(count: usize) -> (slots: Vec<Vec<TimerEvent>>)
    ensures
        slots@.len() == count,
        forall|s: int| 0 <= s < count ==> (#[trigger] slots@[s])@.len() == 0,
{
    let mut slots: Vec<Vec<TimerEvent>> = Vec::new();
    while slots.len() < count
        invariant
            slots@.len() <= count,
            forall|s: int| 0 <= s < slots@.len() ==> (#[trigger] slots@[s])@.len() == 0,
        decreases count - slots@.len(),
    {
        slots.push(Vec::new());
    }
    slots
}

} // verus!
