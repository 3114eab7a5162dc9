//! Slots and the state of each socket.
//!
//! Numbers are given out in order and a socket's slot is its number modulo
//! the number of slots, so that an event that names a slot names a socket,
//! and a request that names a number that has left its slot names nobody.

use crate::net::buffer::{ReadSizer, WriteQueue};
use crate::net::event::{clone_text, SocketId, SocketInfo};
#[allow(unused_imports)]
use crate::net::{
    buffer::QueueView,
    event::{text_view, SocketInfoView},
};
use std::collections::VecDeque;
use vstd::prelude::*;

verus! {

/// What a socket is.
#[derive(Debug, Clone, Copy, PartialEq, Eq, Structural)]
pub enum Kind {
    Listener,
    Stream,
    Udp,
}

impl Kind {
    /// How the kind is written.
    pub open spec fn spec_name(self) -> Seq<char> {
        match self {
            Kind::Listener => "listener"@,
            Kind::Stream => "stream"@,
            Kind::Udp => "udp"@,
        }
    }

    /// How the kind is written.
    pub fn name(self) -> (name: &'static str)
        ensures
            name@ == self.spec_name(),
    {
        match self {
            Kind::Listener => "listener",
            Kind::Stream => "stream",
            Kind::Udp => "udp",
        }
    }
}

/// How far a socket is.
#[derive(Debug, Clone, Copy, PartialEq, Eq, Structural)]
pub enum State {
    /// Bound, and not started yet.
    PreListen,
    /// Accepts connections.
    Listen,
    /// Waits to hear whether it is connected.
    Connecting,
    /// Accepted, and not started yet.
    PreAccept,
    /// Sends and receives.
    Connected,
    /// The peer sends no more; what waits is still to be written.
    HalfCloseRead,
    /// To be closed when what waits is written.
    HalfCloseWrite,
}

impl State {
    /// How the state is written.
    pub open spec fn spec_name(self) -> Seq<char> {
        match self {
            State::PreListen => "prelisten"@,
            State::Listen => "listen"@,
            State::Connecting => "connecting"@,
            State::PreAccept => "preaccept"@,
            State::Connected => "connected"@,
            State::HalfCloseRead => "halfclose_read"@,
            State::HalfCloseWrite => "halfclose_write"@,
        }
    }

    /// How the state is written.
    pub fn name(self) -> (name: &'static str)
        ensures
            name@ == self.spec_name(),
    {
        match self {
            State::PreListen => "prelisten",
            State::Listen => "listen",
            State::Connecting => "connecting",
            State::PreAccept => "preaccept",
            State::Connected => "connected",
            State::HalfCloseRead => "halfclose_read",
            State::HalfCloseWrite => "halfclose_write",
        }
    }

    /// Bytes can be written.
    pub open spec fn spec_writable(self) -> bool {
        self == State::Connected || self == State::HalfCloseRead
    }

    /// Bytes can be written.
    pub fn writable(self) -> (writable: bool)
        ensures
            writable == self.spec_writable(),
    {
        match self {
            State::Connected => true,
            State::HalfCloseRead => true,
            _ => false,
        }
    }
}

/// What a socket wants to hear of.
#[derive(Debug, Clone, Copy, PartialEq, Eq, Structural)]
pub enum Interest {
    Readable,
    Writable,
    Both,
}

/// What is to be changed where sockets are waited for.
#[derive(Debug, Clone, Copy, PartialEq, Eq, Structural)]
pub enum Registration {
    Keep,
    Register(Interest),
    Reregister(Interest),
    Deregister,
}

/// Who waits for an answer: the service that asked, and the number of its
/// request, zero where it does not wait.
#[derive(Debug, Clone, Copy, PartialEq, Eq, Structural)]
pub struct Pending {
    pub source: u32,
    pub session: u64,
}

impl Pending {
    /// Nobody waits.
    pub fn is_silent(&self) -> (silent: bool)
        ensures
            silent == (self.session == 0),
    {
        self.session == 0
    }
}

/// What a socket has done so far.
#[derive(Debug, Clone, Copy, PartialEq, Eq, Structural)]
pub struct Stat {
    pub accept_count: u64,
    pub read_bytes: u64,
    pub write_bytes: u64,
    pub last_read_at_ms: Option<u64>,
    pub last_write_at_ms: Option<u64>,
}

/// A socket. Its addresses are those last reported.
#[derive(Debug)]
pub struct Socket {
    pub id: SocketId,
    pub slot: usize,
    pub owner: u32,
    pub kind: Kind,
    pub state: State,
    pub paused: bool,
    /// What it is registered for, if it is.
    pub interest: Option<Interest>,
    pub wb: WriteQueue,
    pub read: ReadSizer,
    pub local: Option<String>,
    pub peer: Option<String>,
    /// Where datagrams go that name no address.
    pub udp_peer: Option<String>,
    /// Who waits for the connection to come up, or to be closed.
    pub pending: Option<Pending>,
    /// Who waits for fewer bytes to wait.
    pub send_waiters: VecDeque<Pending>,
    /// Addresses to try if the present one fails.
    pub connect_fallbacks: VecDeque<String>,
    /// When the connection is given up, whichever address is tried.
    pub connect_deadline_ms: Option<u64>,
    pub stat: Stat,
}

/// What a [`Socket`] says.
#[verifier::ext_equal]
pub struct SocketView {
    pub id: SocketId,
    pub slot: usize,
    pub owner: u32,
    pub kind: Kind,
    pub state: State,
    pub paused: bool,
    pub interest: Option<Interest>,
    pub wb: QueueView,
    pub read: ReadSizer,
    pub local: Option<Seq<char>>,
    pub peer: Option<Seq<char>>,
    pub udp_peer: Option<Seq<char>>,
    pub pending: Option<Pending>,
    pub send_waiters: Seq<Pending>,
    pub connect_fallbacks: Seq<Seq<char>>,
    pub connect_deadline_ms: Option<u64>,
    pub stat: Stat,
}

impl View for Socket {
    type V = SocketView;

    open spec fn view(&self) -> SocketView {
        SocketView {
            id: self.id,
            slot: self.slot,
            owner: self.owner,
            kind: self.kind,
            state: self.state,
            paused: self.paused,
            interest: self.interest,
            wb: self.wb@,
            read: self.read,
            local: text_view(self.local),
            peer: text_view(self.peer),
            udp_peer: text_view(self.udp_peer),
            pending: self.pending,
            send_waiters: self.send_waiters@,
            connect_fallbacks: self.connect_fallbacks@.map_values(|a: String| a@),
            connect_deadline_ms: self.connect_deadline_ms,
            stat: self.stat,
        }
    }
}

impl SocketView {
    /// A socket about which nothing has happened yet.
    pub open spec fn fresh(
        id: SocketId,
        slot: usize,
        owner: u32,
        kind: Kind,
        state: State,
        floor: usize,
    ) -> SocketView {
        SocketView {
            id,
            slot,
            owner,
            kind,
            state,
            paused: false,
            interest: None,
            wb: QueueView::empty(),
            read: ReadSizer { size: floor, floor },
            local: None,
            peer: None,
            udp_peer: None,
            pending: None,
            send_waiters: Seq::empty(),
            connect_fallbacks: Seq::empty(),
            connect_deadline_ms: None,
            stat: Stat {
                accept_count: 0,
                read_bytes: 0,
                write_bytes: 0,
                last_read_at_ms: None,
                last_write_at_ms: None,
            },
        }
    }

    /// What the socket wants to hear of, by its state and by whether bytes
    /// wait. Pausing is not listening less but taking less, and plays no part.
    pub open spec fn desired(self) -> Option<Interest> {
        match self.state {
            State::PreListen => None,
            State::PreAccept => None,
            State::Listen => Some(Interest::Readable),
            State::Connecting => Some(Interest::Writable),
            State::Connected => if self.wb.is_empty() {
                Some(Interest::Readable)
            } else {
                Some(Interest::Both)
            },
            State::HalfCloseRead => Some(Interest::Writable),
            State::HalfCloseWrite => Some(Interest::Writable),
        }
    }

    /// What is to be changed where sockets are waited for.
    pub open spec fn registration(self) -> Registration {
        match (self.desired(), self.interest) {
            (Some(want), None) => Registration::Register(want),
            (Some(want), Some(have)) => if want != have {
                Registration::Reregister(want)
            } else {
                Registration::Keep
            },
            (None, Some(_)) => Registration::Deregister,
            (None, None) => Registration::Keep,
        }
    }

    /// With the change made.
    pub open spec fn applied(self) -> SocketView {
        SocketView { interest: self.desired(), ..self }
    }

    /// The description of the socket.
    pub open spec fn info(self) -> SocketInfoView {
        SocketInfoView {
            id: self.id,
            owner: self.owner,
            kind: self.kind.spec_name(),
            state: self.state.spec_name(),
            paused: self.paused,
            local: self.local,
            peer: if self.kind == Kind::Stream {
                self.peer
            } else {
                self.udp_peer
            },
            write_pending: self.wb.size(),
            accept_count: self.stat.accept_count,
            read_bytes: self.stat.read_bytes,
            write_bytes: self.stat.write_bytes,
            last_read_at_ms: self.stat.last_read_at_ms,
            last_write_at_ms: self.stat.last_write_at_ms,
            reading: !self.paused && (self.state == State::Listen || self.state
                == State::Connected),
            writing: !self.wb.is_empty(),
        }
    }
}

impl Socket {
    /// The bytes that wait are counted right.
    pub open spec fn wf(&self) -> bool {
        self.wb.wf()
    }

    /// A socket about which nothing has happened yet.
    pub fn new(
        id: SocketId,
        slot: usize,
        owner: u32,
        kind: Kind,
        state: State,
        floor: usize,
    ) -> (socket: Socket)
        ensures
            socket.wf(),
            socket@ == SocketView::fresh(id, slot, owner, kind, state, floor),
    {
        let socket = Socket {
            id,
            slot,
            owner,
            kind,
            state,
            paused: false,
            interest: None,
            wb: WriteQueue::default(),
            read: ReadSizer::new(floor),
            local: None,
            peer: None,
            udp_peer: None,
            pending: None,
            send_waiters: VecDeque::new(),
            connect_fallbacks: VecDeque::new(),
            connect_deadline_ms: None,
            stat: Stat {
                accept_count: 0,
                read_bytes: 0,
                write_bytes: 0,
                last_read_at_ms: None,
                last_write_at_ms: None,
            },
        };
        assert(socket@ =~= SocketView::fresh(id, slot, owner, kind, state, floor));
        socket
    }

    /// The number by which events name the socket: its slot.
    pub fn token(&self) -> (token: usize)
        ensures
            token == self@.slot,
    {
        self.slot
    }

    /// What the socket wants to hear of.
    pub fn desired(&self) -> (interest: Option<Interest>)
        ensures
            interest == self@.desired(),
    {
        match self.state {
            State::PreListen => None,
            State::PreAccept => None,
            State::Listen => Some(Interest::Readable),
            State::Connecting => Some(Interest::Writable),
            State::Connected => if self.wb.is_empty() {
                Some(Interest::Readable)
            } else {
                Some(Interest::Both)
            },
            State::HalfCloseRead => Some(Interest::Writable),
            State::HalfCloseWrite => Some(Interest::Writable),
        }
    }

    /// What is to be changed where sockets are waited for.
    pub fn registration(&self) -> (registration: Registration)
        ensures
            registration == self@.registration(),
    {
        match (self.desired(), self.interest) {
            (Some(want), None) => Registration::Register(want),
            (Some(want), Some(have)) => if want != have {
                Registration::Reregister(want)
            } else {
                Registration::Keep
            },
            (None, Some(_)) => Registration::Deregister,
            (None, None) => Registration::Keep,
        }
    }

    /// Notes that the change was made.
    pub fn apply(&mut self)
        requires
            old(self).wf(),
        ensures
            final(self).wf(),
            final(self)@ == old(self)@.applied(),
    {
        self.interest = self.desired();
    }

    /// The description of the socket.
    pub fn info(&self) -> (info: SocketInfo)
        requires
            self.wf(),
        ensures
            info@ == self@.info(),
            info.owner_kind is None,
            info.owner_names@.len() == 0,
    {
        let peer = if self.kind == Kind::Stream {
            clone_text(&self.peer)
        } else {
            clone_text(&self.udp_peer)
        };
        SocketInfo {
            id: self.id,
            owner: self.owner,
            owner_kind: None,
            owner_names: Vec::new(),
            kind: self.kind.name(),
            state: self.state.name(),
            paused: self.paused,
            local: clone_text(&self.local),
            peer,
            write_pending: self.wb.size(),
            accept_count: self.stat.accept_count,
            read_bytes: self.stat.read_bytes,
            write_bytes: self.stat.write_bytes,
            last_read_at_ms: self.stat.last_read_at_ms,
            last_write_at_ms: self.stat.last_write_at_ms,
            reading: !self.paused && (self.state == State::Listen || self.state
                == State::Connected),
            writing: !self.wb.is_empty(),
        }
    }
}

/// The number after a number; zero is none.
pub open spec fn next_id(id: u32) -> u32 {
    if id == u32::MAX {
        1
    } else {
        (id + 1) as u32
    }
}

/// The number some steps after a number.
pub open spec fn id_after(id: u32, steps: nat) -> u32
    decreases steps,
{
    if steps == 0 {
        id
    } else {
        next_id(id_after(id, (steps - 1) as nat))
    }
}

/// The slots.
#[derive(Debug)]
pub struct Sockets {
    pub slots: Vec<Option<Socket>>,
    /// The number that is tried next.
    pub next: u32,
    /// The read buffer that a socket starts with.
    pub floor: usize,
}

/// What [`Sockets`] say.
#[verifier::ext_equal]
pub struct SocketsView {
    pub slots: Seq<Option<SocketView>>,
    pub next: u32,
    pub floor: usize,
}

/// What a slot says.
pub open spec fn slot_view(slot: Option<Socket>) -> Option<SocketView> {
    match slot {
        None => None,
        Some(socket) => Some(socket@),
    }
}

impl View for Sockets {
    type V = SocketsView;

    open spec fn view(&self) -> SocketsView {
        SocketsView {
            slots: self.slots@.map_values(|s: Option<Socket>| slot_view(s)),
            next: self.next,
            floor: self.floor,
        }
    }
}

impl SocketsView {
    /// There is a slot, numbers start at one, and each socket stands in the
    /// slot of its number.
    pub open spec fn wf(self) -> bool {
        &&& self.slots.len() > 0
        &&& self.next > 0
        &&& forall|i: int|
            0 <= i < self.slots.len() ==> (#[trigger] self.slots[i] matches Some(socket)
                ==> socket.slot == i && self.slot_of(socket.id) == i && socket.id.0 > 0)
    }

    /// The slot of a number.
    pub open spec fn slot_of(self, id: SocketId) -> int {
        id.0 as int % self.slots.len() as int
    }

    /// The socket with a number.
    pub open spec fn get(self, id: SocketId) -> Option<SocketView> {
        match self.slots[self.slot_of(id)] {
            Some(socket) => if socket.id == id {
                Some(socket)
            } else {
                None
            },
            None => None,
        }
    }

    /// The number that is some steps ahead has a free slot.
    pub open spec fn free_ahead(self, steps: nat) -> bool {
        self.slots[self.slot_of(SocketId(id_after(self.next, steps)))] is None
    }

    /// How many numbers it takes to look at every slot: as many as there are
    /// slots, but where the numbers start over on the way, as many again from
    /// there.
    pub open spec fn reach(self) -> nat {
        if self.next + self.slots.len() <= u32::MAX + 1 {
            self.slots.len()
        } else {
            (u32::MAX - self.next + 1 + self.slots.len()) as nat
        }
    }

    /// How many numbers are passed over before one with a free slot, or all
    /// of those that are looked at.
    pub open spec fn passed_over(self, steps: nat) -> nat
        decreases self.reach() - steps,
    {
        if steps >= self.reach() || self.free_ahead(steps) {
            steps
        } else {
            self.passed_over(steps + 1)
        }
    }

    /// With a new socket entered under the first number whose slot is free,
    /// and that number, if one was found.
    pub open spec fn inserted(self, owner: u32, kind: Kind, state: State) -> (
        SocketsView,
        Option<SocketId>,
    ) {
        let steps = self.passed_over(0);
        let id = SocketId(id_after(self.next, steps));
        if steps >= self.reach() {
            (SocketsView { next: id.0, ..self }, None)
        } else {
            let slot = self.slot_of(id);
            (
                SocketsView {
                    slots: self.slots.update(
                        slot,
                        Some(SocketView::fresh(id, slot as usize, owner, kind, state, self.floor)),
                    ),
                    next: next_id(id.0),
                    ..self
                },
                Some(id),
            )
        }
    }

    /// Without a socket.
    pub open spec fn removed(self, id: SocketId) -> SocketsView {
        if self.get(id) is Some {
            SocketsView { slots: self.slots.update(self.slot_of(id), None), ..self }
        } else {
            self
        }
    }

    /// With a socket changed.
    pub open spec fn with(self, socket: SocketView) -> SocketsView {
        SocketsView { slots: self.slots.update(self.slot_of(socket.id), Some(socket)), ..self }
    }
}

impl Sockets {
    /// Each socket stands in its slot and counts its bytes right.
    pub open spec fn wf(&self) -> bool {
        &&& self@.wf()
        &&& forall|i: int|
            0 <= i < self.slots@.len() ==> (#[trigger] self.slots@[i] matches Some(socket)
                ==> socket.wf())
    }

    /// So many free slots.
    pub fn new(capacity: usize, floor: usize) -> (sockets: Sockets)
        requires
            capacity > 0,
        ensures
            sockets.wf(),
            sockets@.slots.len() == capacity,
            forall|i: int| 0 <= i < capacity ==> (#[trigger] sockets@.slots[i]) is None,
            sockets@.next == 1,
            sockets@.floor == floor,
    {
        let mut slots: Vec<Option<Socket>> = Vec::new();
        while slots.len() < capacity
            invariant
                slots@.len() <= capacity,
                forall|i: int| 0 <= i < slots@.len() ==> (#[trigger] slots@[i]) is None,
            decreases capacity - slots@.len(),
        {
            slots.push(None);
        }
        Sockets { slots, next: 1, floor }
    }

    /// The slot of a number.
    pub fn slot_of(&self, id: SocketId) -> (slot: usize)
        requires
            self.slots@.len() > 0,
        ensures
            slot == self@.slot_of(id),
            slot < self.slots@.len(),
    {
        (id.0 as u64 % self.slots.len() as u64) as usize
    }

    /// Enters a new socket under the next number whose slot is free. Only with
    /// all slots taken there is none; with more slots than there are numbers,
    /// those that no number has stay free.
    pub fn insert(&mut self, owner: u32, kind: Kind, state: State) -> (id: Option<SocketId>)
        requires
            old(self).wf(),
        ensures
            final(self).wf(),
            (final(self)@, id) == old(self)@.inserted(owner, kind, state),
            id matches Some(id) ==> final(self)@.get(id) is Some && old(self)@.get(id) is None,
            id is None && old(self)@.slots.len() <= u32::MAX ==> forall|i: int|
                0 <= i < old(self)@.slots.len() ==> (#[trigger] old(self)@.slots[i]) is Some,
    {
        let ghost before = self@;
        let count: u128 = self.slots.len() as u128;
        let left: u128 = u32::MAX as u128 - self.next as u128 + 1;
        let limit: u128 = if count <= left {
            count
        } else {
            left + count
        };
        let mut tries: u128 = 0;
        while tries < limit
            invariant
                before == old(self)@,
                self.wf(),
                self@ == (SocketsView { next: id_after(before.next, tries as nat), ..before }),
                before.wf(),
                tries <= limit == before.reach(),
                before.passed_over(0) == before.passed_over(tries as nat),
            decreases limit - tries,
        {
            let id = SocketId(self.next);
            let slot: usize = self.slot_of(id);
            assert(self@.slots[slot as int] == slot_view(self.slots@[slot as int]));
            if self.slots[slot].is_none() {
                self.next = if self.next == u32::MAX {
                    1
                } else {
                    self.next + 1
                };
                let socket = Socket::new(id, slot, owner, kind, state, self.floor);
                let ghost new = socket@;
                self.slots.set(slot, Some(socket));
                proof {
                    assert(before.free_ahead(tries as nat));
                    assert(self@.slots =~= before.slots.update(slot as int, Some(new)));
                    assert forall|i: int| 0 <= i < self@.slots.len() implies (
                    #[trigger] self@.slots[i] matches Some(socket) ==> socket.slot == i
                        && self@.slot_of(socket.id) == i && socket.id.0 > 0) by {
                        if i != slot {
                            assert(self@.slots[i] == before.slots[i]);
                        }
                    }
                }
                return Some(id);
            }
            self.next = if self.next == u32::MAX {
                1
            } else {
                self.next + 1
            };
            proof {
                assert(!before.free_ahead(tries as nat));
                assert(self@.slots =~= before.slots);
            }
            tries = tries + 1;
        }
        proof {
            if before.slots.len() <= u32::MAX {
                assert forall|i: int| 0 <= i < before.slots.len() implies (
                #[trigger] before.slots[i]) is Some by {
                    if before.slots[i] is None {
                        law_a_free_slot_is_found(before, i, owner, kind, state);
                    }
                }
            }
        }
        None
    }

    /// The socket with a number.
    pub fn get(&self, id: SocketId) -> (socket: Option<&Socket>)
        requires
            self.wf(),
        ensures
            match socket {
                Some(socket) => self@.get(id) == Some(socket@) && socket.wf(),
                None => self@.get(id) is None,
            },
    {
        let slot: usize = self.slot_of(id);
        assert(self@.slots[slot as int] == slot_view(self.slots@[slot as int]));
        match &self.slots[slot] {
            Some(socket) => if socket.id == id {
                Some(socket)
            } else {
                None
            },
            None => None,
        }
    }

    /// The socket that events name by this slot.
    pub fn by_token(&self, token: usize) -> (socket: Option<&Socket>)
        ensures
            match socket {
                Some(socket) => token < self@.slots.len() && self@.slots[token as int]
                    == Some(socket@),
                None => token >= self@.slots.len() || self@.slots[token as int] is None,
            },
    {
        if token < self.slots.len() {
            assert(self@.slots[token as int] == slot_view(self.slots@[token as int]));
            self.slots[token].as_ref()
        } else {
            None
        }
    }

    /// Takes a socket out.
    pub fn remove(&mut self, id: SocketId) -> (socket: Option<Socket>)
        requires
            old(self).wf(),
        ensures
            final(self).wf(),
            final(self)@ == old(self)@.removed(id),
            match socket {
                Some(socket) => old(self)@.get(id) == Some(socket@) && socket.wf(),
                None => old(self)@.get(id) is None,
            },
            final(self)@.get(id) is None,
    {
        let ghost before = self@;
        let slot: usize = self.slot_of(id);
        assert(self@.slots[slot as int] == slot_view(self.slots@[slot as int]));
        let named = match &self.slots[slot] {
            Some(socket) => socket.id == id,
            None => false,
        };
        if !named {
            return None;
        }
        let socket = self.slots[slot].take();
        proof {
            assert(self@.slots =~= before.slots.update(slot as int, None));
            assert forall|i: int| 0 <= i < self@.slots.len() implies (
            #[trigger] self@.slots[i] matches Some(socket) ==> socket.slot == i && self@.slot_of(
                socket.id,
            ) == i && socket.id.0 > 0) by {
                assert(i != slot ==> self@.slots[i] == before.slots[i]);
            }
        }
        socket
    }

    /// Puts a socket that was taken out back in its slot.
    pub fn restore(&mut self, socket: Socket)
        requires
            old(self).wf(),
            socket.wf(),
            socket@.id.0 > 0,
            socket@.slot == old(self)@.slot_of(socket@.id),
        ensures
            final(self).wf(),
            final(self)@ == old(self)@.with(socket@),
            final(self)@.get(socket@.id) == Some(socket@),
    {
        let ghost before = self@;
        let ghost new = socket@;
        let slot: usize = self.slot_of(socket.id);
        self.slots.set(slot, Some(socket));
        proof {
            assert(self@.slots =~= before.slots.update(slot as int, Some(new)));
            assert forall|i: int| 0 <= i < self@.slots.len() implies (
            #[trigger] self@.slots[i] matches Some(socket) ==> socket.slot == i && self@.slot_of(
                socket.id,
            ) == i && socket.id.0 > 0) by {
                if i != slot {
                    assert(self@.slots[i] == before.slots[i]);
                }
            }
        }
    }

    /// The descriptions of all sockets, in the order of their numbers.
    pub fn infos(&self) -> (infos: Vec<SocketInfo>)
        requires
            self.wf(),
        ensures
            forall|j: int, k: int|
                0 <= j < k < infos@.len() ==> (#[trigger] infos@[j]).id.0 < (
                #[trigger] infos@[k]).id.0,
            forall|j: int| 0 <= j < infos@.len() ==> self@.describes((#[trigger] infos@[j])@),
            forall|i: int|
                0 <= i < self@.slots.len() ==> (#[trigger] self@.slots[i] matches Some(socket)
                    ==> exists|j: int|
                    0 <= j < infos@.len() && (#[trigger] infos@[j])@ == socket.info()),
    {
        let mut infos: Vec<SocketInfo> = Vec::new();
        let mut i: usize = 0;
        while i < self.slots.len()
            invariant
                i <= self.slots@.len(),
                self.wf(),
                forall|j: int, k: int|
                    0 <= j < k < infos@.len() ==> (#[trigger] infos@[j]).id.0 < (
                    #[trigger] infos@[k]).id.0,
                forall|j: int|
                    0 <= j < infos@.len() ==> self@.describes((#[trigger] infos@[j])@)
                        && self@.slot_of(infos@[j].id) < i,
                forall|n: int|
                    0 <= n < i ==> (#[trigger] self@.slots[n] matches Some(socket) ==> exists|
                        j: int,
                    |
                        0 <= j < infos@.len() && (#[trigger] infos@[j])@ == socket.info()),
            decreases self.slots@.len() - i,
        {
            assert(self@.slots[i as int] == slot_view(self.slots@[i as int]));
            let ghost before = infos@;
            if let Some(socket) = &self.slots[i] {
                let info = socket.info();
                let ghost new = info;
                assert forall|j: int| 0 <= j < infos@.len() implies (#[trigger] infos@[j]).id
                    != new.id by {
                    assert(self@.slot_of(infos@[j].id) < i);
                }
                insert_sorted(&mut infos, info);
                proof {
                    assert(self@.slots[i as int] == Some(socket@));
                    assert(self@.describes(new@));
                    assert forall|j: int| 0 <= j < infos@.len() implies self@.describes(
                        (#[trigger] infos@[j])@,
                    ) && self@.slot_of(infos@[j].id) < i + 1 by {
                        assert(infos@.contains(infos@[j]));
                        if infos@[j] != new {
                            let k = choose|k: int| 0 <= k < before.len() && before[k] == infos@[j];
                            assert(self@.describes(before[k]@));
                        }
                    }
                    assert forall|n: int| 0 <= n < i + 1 implies (#[trigger] self@.slots[n] matches Some(
                        other,
                    ) ==> exists|j: int|
                        0 <= j < infos@.len() && (#[trigger] infos@[j])@ == other.info()) by {
                        if self@.slots[n] is Some {
                            let other = self@.slots[n]->0;
                            if n < i {
                                let j = choose|j: int|
                                    0 <= j < before.len() && (#[trigger] before[j])@
                                        == other.info();
                                assert(before.contains(before[j]));
                                assert(infos@.contains(before[j]));
                            } else {
                                assert(infos@.contains(new));
                            }
                        }
                    }
                }
            }
            i = i + 1;
        }
        infos
    }
}

impl Default for Sockets {
    /// No slots: how many there are is known later.
    fn default() -> (sockets: Sockets)
        ensures
            sockets@.slots.len() == 0,
            sockets@.next == 1,
            sockets@.floor == 64,
    {
        Sockets { slots: Vec::new(), next: 1, floor: 64 }
    }
}

impl SocketsView {
    /// One of the sockets has this description.
    pub open spec fn describes(self, info: SocketInfoView) -> bool {
        exists|i: int|
            0 <= i < self.slots.len() && (#[trigger] self.slots[i] matches Some(socket)
                && socket.info() == info)
    }
}

impl SocketsView {
    /// These are the descriptions of all sockets, in the order of their
    /// numbers.
    pub open spec fn described_by(self, infos: Seq<SocketInfoView>) -> bool {
        &&& forall|j: int, k: int|
            0 <= j < k < infos.len() ==> (#[trigger] infos[j]).id.0 < (#[trigger] infos[k]).id.0
        &&& forall|j: int| 0 <= j < infos.len() ==> self.describes(#[trigger] infos[j])
        &&& forall|i: int|
            0 <= i < self.slots.len() ==> (#[trigger] self.slots[i] matches Some(socket)
                ==> infos.contains(socket.info()))
    }

    /// The same, said of the descriptions themselves.
    pub proof fn lemma_described_by(self, infos: Seq<SocketInfo>, views: Seq<SocketInfoView>)
        requires
            views == infos.map_values(|i: SocketInfo| i@),
            forall|j: int, k: int|
                0 <= j < k < infos.len() ==> (#[trigger] infos[j]).id.0 < (
                #[trigger] infos[k]).id.0,
            forall|j: int| 0 <= j < infos.len() ==> self.describes((#[trigger] infos[j])@),
            forall|i: int|
                0 <= i < self.slots.len() ==> (#[trigger] self.slots[i] matches Some(socket)
                    ==> exists|j: int|
                    0 <= j < infos.len() && (#[trigger] infos[j])@ == socket.info()),
        ensures
            self.described_by(views),
    {
        assert forall|j: int, k: int| 0 <= j < k < views.len() implies (
        #[trigger] views[j]).id.0 < (#[trigger] views[k]).id.0 by {
            assert(infos[j].id.0 < infos[k].id.0);
        }
        assert forall|j: int| 0 <= j < views.len() implies self.describes(#[trigger] views[j]) by {
            assert(self.describes(infos[j]@));
        }
        assert forall|i: int| 0 <= i < self.slots.len() implies (#[trigger] self.slots[i] matches Some(
            socket,
        ) ==> views.contains(socket.info())) by {
            if self.slots[i] is Some {
                let socket = self.slots[i]->0;
                let j = choose|j: int|
                    0 <= j < infos.len() && (#[trigger] infos[j])@ == socket.info();
                assert(views[j] == socket.info());
            }
        }
    }
}

/// Enters a description among others that are in the order of their numbers.
fn insert_sorted(infos: &mut Vec<SocketInfo>, info: SocketInfo)
    requires
        forall|j: int, k: int|
            0 <= j < k < old(infos)@.len() ==> (#[trigger] old(infos)@[j]).id.0 < (
            #[trigger] old(infos)@[k]).id.0,
        forall|j: int|
            0 <= j < old(infos)@.len() ==> (#[trigger] old(infos)@[j]).id != info.id,
    ensures
        forall|j: int, k: int|
            0 <= j < k < final(infos)@.len() ==> (#[trigger] final(infos)@[j]).id.0 < (
            #[trigger] final(infos)@[k]).id.0,
        forall|x: SocketInfo| #[trigger]
            final(infos)@.contains(x) <==> old(infos)@.contains(x) || x == info,
{
    let ghost before = infos@;
    let mut place: usize = 0;
    while place < infos.len() && infos[place].id.0 < info.id.0
        invariant
            place <= infos@.len(),
            infos@ == before,
            forall|j: int| 0 <= j < place ==> (#[trigger] infos@[j]).id.0 < info.id.0,
        decreases infos@.len() - place,
    {
        place = place + 1;
    }
    let ghost p = place as int;
    assert forall|j: int| p <= j < before.len() implies info.id.0 < (#[trigger] before[j]).id.0 by {
        assert(before[p].id != info.id);
        if j > p {
            assert(before[p].id.0 < before[j].id.0);
        }
    }
    infos.insert(place, info);
    assert forall|j: int, k: int| 0 <= j < k < infos@.len() implies (#[trigger] infos@[j]).id.0 < (
    #[trigger] infos@[k]).id.0 by {
        if j < p && k < p {
            assert(before[j].id.0 < before[k].id.0);
        } else if j > p {
            assert(before[j - 1].id.0 < before[k - 1].id.0);
        } else if j < p && k > p {
            assert(before[j].id.0 < before[k - 1].id.0);
        }
    }
    assert forall|x: SocketInfo| #[trigger] infos@.contains(x) <==> before.contains(x) || x
        == info by {
        if before.contains(x) {
            let j = choose|j: int| 0 <= j < before.len() && before[j] == x;
            let m = if j < p {
                j
            } else {
                j + 1
            };
            assert(infos@[m] == x);
        }
        if x == info {
            assert(infos@[p] == x);
        }
        if infos@.contains(x) {
            let j = choose|j: int| 0 <= j < infos@.len() && infos@[j] == x;
            if j != p {
                let m = if j < p {
                    j
                } else {
                    j - 1
                };
                assert(before[m] == x);
            }
        }
    }
}

/// A number that has left its slot names nobody, whoever has the slot now:
/// entering a new socket does not bring an old number back.
pub proof fn law_recycled_slot_rejects_the_old_number(
    sockets: SocketsView,
    stale: SocketId,
    owner: u32,
    kind: Kind,
    state: State,
)
    requires
        sockets.wf(),
        sockets.get(stale) is None,
        sockets.inserted(owner, kind, state).1 != Some(stale),
    ensures
        sockets.inserted(owner, kind, state).0.get(stale) is None,
{
}

/// Taking a socket out and putting it back unchanged changes nothing.
pub proof fn law_removing_and_restoring_changes_nothing(sockets: SocketsView, id: SocketId)
    requires
        sockets.wf(),
        sockets.get(id) is Some,
    ensures
        sockets.removed(id).with(sockets.get(id)->0) == sockets,
{
    assert(sockets.removed(id).with(sockets.get(id)->0).slots =~= sockets.slots);
}

/// A free slot is always found, also where the numbers start over on the way.
/// Left out are more slots than there are numbers.
pub proof fn law_a_free_slot_is_found(
    sockets: SocketsView,
    free: int,
    owner: u32,
    kind: Kind,
    state: State,
)
    requires
        sockets.wf(),
        sockets.slots.len() <= u32::MAX,
        0 <= free < sockets.slots.len(),
        sockets.slots[free] is None,
    ensures
        sockets.inserted(owner, kind, state).1 is Some,
{
    let count = sockets.slots.len() as int;
    if sockets.next + count <= u32::MAX + 1 {
        let steps = ((free - sockets.next) % count) as nat;
        assert(0 <= (free - sockets.next) % count < count) by (nonlinear_arith)
            requires
                count > 0,
        ;
        lemma_id_after(sockets.next, steps);
        let reached = sockets.next + steps;
        assert(reached % count == free) by (nonlinear_arith)
            requires
                0 <= free < count,
                reached == sockets.next + (free - sockets.next) % count,
        {
            vstd::arithmetic::div_mod::lemma_add_mod_noop_right(
                sockets.next as int,
                free - sockets.next,
                count,
            );
            vstd::arithmetic::div_mod::lemma_small_mod(free as nat, count as nat);
        }
        assert(sockets.free_ahead(steps));
        lemma_passed_over(sockets, 0, steps);
    } else {
        let number = if free == 0 {
            count
        } else {
            free
        };
        let before = (u32::MAX - sockets.next + 1) as nat;
        let steps = (before + number - 1) as nat;
        lemma_id_starts_over(sockets.next, (number - 1) as nat);
        assert(number % count == free) by (nonlinear_arith)
            requires
                0 <= free < count,
                number == (if free == 0 {
                    count
                } else {
                    free
                }),
        {
            if free == 0 {
                vstd::arithmetic::div_mod::lemma_mod_self_0(count);
            } else {
                vstd::arithmetic::div_mod::lemma_small_mod(free as nat, count as nat);
            }
        }
        assert(sockets.free_ahead(steps));
        lemma_passed_over(sockets, 0, steps);
    }
}

/// Behind the largest number come the numbers from one on.
proof fn lemma_id_starts_over(id: u32, steps: nat)
    requires
        id > 0,
        steps < u32::MAX,
    ensures
        id_after(id, (u32::MAX - id + 1 + steps) as nat) == 1 + steps,
    decreases steps,
{
    if steps > 0 {
        lemma_id_starts_over(id, (steps - 1) as nat);
    } else {
        lemma_id_after(id, (u32::MAX - id) as nat);
    }
}

proof fn lemma_id_after(id: u32, steps: nat)
    requires
        id + steps <= u32::MAX,
    ensures
        id_after(id, steps) == id + steps,
    decreases steps,
{
    if steps > 0 {
        lemma_id_after(id, (steps - 1) as nat);
    }
}

proof fn lemma_passed_over(sockets: SocketsView, from: nat, found: nat)
    requires
        from <= found < sockets.reach(),
        sockets.free_ahead(found),
    ensures
        sockets.passed_over(from) <= found,
    decreases found - from,
{
    if !sockets.free_ahead(from) {
        lemma_passed_over(sockets, from + 1, found);
    }
}

} // verus!
