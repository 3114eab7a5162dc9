//! Bookkeeping of the QUIC service: endpoints, connections, reservations, and
//! what each request does to them.

use crate::quic::command::{Command, VARINT_BOUND};
use crate::quic::config::QuicConfig;
use crate::quic::event::{QuicConnectionId, QuicListenerId, QuicStreamId};
use crate::quic::link::Link;
use crate::quic::outcome::{CallOutcome, ProtoInfo, WriteOutcome};
#[allow(unused_imports)]
use crate::{
    places::{first_place, lemma_first_place_is},
    quic::{
        event::text_view,
        link::LinkView,
        outcome::{CallOutcomeView, ProtoInfoView, WriteOutcomeView},
        output::OutputView,
    },
};
use vstd::prelude::*;

verus! {

/// A listener and the service that asked for it.
#[derive(Debug, Clone, Copy, PartialEq, Eq, Structural)]
pub struct Listener {
    pub id: QuicListenerId,
    pub owner: u32,
}

/// A connection under the number that the protocol engine gave it.
#[derive(Debug, Clone, Copy, PartialEq, Eq, Structural)]
pub struct Bound {
    pub handle: usize,
    pub id: QuicConnectionId,
}

/// One UDP socket that speaks QUIC. Times are nanoseconds of the service's
/// clock.
#[derive(Debug)]
pub struct EndpointState {
    pub socket: u32,
    pub local: Option<String>,
    pub listener: Option<Listener>,
    pub connections: Vec<Bound>,
    pub timer_generation: u64,
    pub timer_deadline: Option<u64>,
}

/// What an [`EndpointState`] says.
#[verifier::ext_equal]
pub struct EndpointView {
    pub socket: u32,
    pub local: Option<Seq<char>>,
    pub listener: Option<Listener>,
    pub connections: Seq<Bound>,
    pub timer_generation: u64,
    pub timer_deadline: Option<u64>,
}

impl View for EndpointState {
    type V = EndpointView;

    open spec fn view(&self) -> EndpointView {
        EndpointView {
            socket: self.socket,
            local: text_view(self.local),
            listener: self.listener,
            connections: self.connections@,
            timer_generation: self.timer_generation,
            timer_deadline: self.timer_deadline,
        }
    }
}

/// Everything the service keeps books of. Connections stand in the order of
/// their numbers.
#[derive(Debug)]
pub struct State {
    pub next_listener: u32,
    pub next_connection: u64,
    pub endpoints: Vec<EndpointState>,
    pub links: Vec<Link>,
    pub reserved_connections: usize,
    pub reserved_handshakes: usize,
}

/// What a [`State`] says.
#[verifier::ext_equal]
pub struct StateView {
    pub next_listener: u32,
    pub next_connection: u64,
    pub endpoints: Seq<EndpointView>,
    pub links: Seq<LinkView>,
    pub reserved_connections: usize,
    pub reserved_handshakes: usize,
}

impl View for State {
    type V = StateView;

    open spec fn view(&self) -> StateView {
        StateView {
            next_listener: self.next_listener,
            next_connection: self.next_connection,
            endpoints: self.endpoints@.map_values(|e: EndpointState| e@),
            links: self.links@.map_values(|l: Link| l@),
            reserved_connections: self.reserved_connections,
            reserved_handshakes: self.reserved_handshakes,
        }
    }
}

/// What a request needs from the protocol engine, if anything. Connections
/// are named by their place.
#[derive(Debug, Clone, Copy, PartialEq, Eq, Structural)]
pub enum Consult {
    Nothing,
    Open { place: usize, bidirectional: bool },
    Write { place: usize, stream: u64 },
    Finish { place: usize, stream: u64 },
    Reset { place: usize, stream: u64, code: u64 },
    Stop { place: usize, stream: u64, code: u64 },
    Datagram { place: usize },
    Close { place: usize, code: u64 },
    Info { place: usize },
    Infos,
}

/// What the protocol engine answered.
#[derive(Debug)]
pub enum Outcome {
    Nothing,
    Opened(Option<u64>),
    Write(WriteOutcome),
    Call(CallOutcome),
    Info(ProtoInfo),
    Infos(Vec<ProtoInfo>),
}

/// What an [`Outcome`] says.
#[verifier::ext_equal]
pub enum OutcomeView {
    Nothing,
    Opened(Option<u64>),
    Write(WriteOutcomeView),
    Call(CallOutcomeView),
    Info(ProtoInfoView),
    Infos(Seq<ProtoInfoView>),
}

impl View for Outcome {
    type V = OutcomeView;

    open spec fn view(&self) -> OutcomeView {
        match *self {
            Outcome::Nothing => OutcomeView::Nothing,
            Outcome::Opened(stream) => OutcomeView::Opened(stream),
            Outcome::Write(outcome) => OutcomeView::Write(outcome@),
            Outcome::Call(outcome) => OutcomeView::Call(outcome@),
            Outcome::Info(info) => OutcomeView::Info(info@),
            Outcome::Infos(infos) => OutcomeView::Infos(infos@.map_values(|i: ProtoInfo| i@)),
        }
    }
}

/// What a request leaves: the books, what is to be sent, the socket that has
/// something to send now, and the place of the endpoint that was dropped.
#[verifier::ext_equal]
pub struct Settled {
    pub state: StateView,
    pub output: OutputView,
    pub socket: Option<u32>,
    pub dropped: Option<int>,
}

/// A request that the books can settle.
pub open spec fn performable(command: Command) -> bool {
    match command {
        Command::Listen(_) => false,
        Command::Connect(_) => false,
        Command::Tick { .. } => false,
        Command::ConnectTimeout(_) => false,
        _ => true,
    }
}

/// The outcome is one of those that the question can have.
pub open spec fn answers(
    consult: Consult,
    command: Command,
    connections: int,
    outcome: OutcomeView,
) -> bool {
    match consult {
        Consult::Nothing => outcome is Nothing,
        Consult::Open { .. } => outcome is Opened,
        Consult::Write { .. } => outcome matches OutcomeView::Write(write) && (
        write matches WriteOutcomeView::Written(count) ==> 0 <= count && (
        command matches Command::Send { data, .. } ==> count <= data@.len())),
        Consult::Finish { .. } => outcome is Call,
        Consult::Reset { .. } => outcome is Call,
        Consult::Stop { .. } => outcome is Call,
        Consult::Datagram { .. } => outcome is Call,
        Consult::Close { .. } => outcome is Nothing,
        Consult::Info { .. } => outcome is Info,
        Consult::Infos => outcome matches OutcomeView::Infos(infos) && infos.len() == connections,
    }
}

impl StateView {
    /// Nothing yet.
    pub open spec fn empty() -> StateView {
        StateView {
            next_listener: 0,
            next_connection: 0,
            endpoints: Seq::empty(),
            links: Seq::empty(),
            reserved_connections: 0,
            reserved_handshakes: 0,
        }
    }

    /// No socket has two endpoints, connections stand in the order of their
    /// numbers, and the books of each fit together.
    pub open spec fn wf(self) -> bool {
        &&& forall|i: int, j: int|
            0 <= i < j < self.endpoints.len() ==> (#[trigger] self.endpoints[i]).socket != (
            #[trigger] self.endpoints[j]).socket
        &&& forall|i: int, j: int|
            0 <= i < j < self.links.len() ==> (#[trigger] self.links[i]).id.0 < (
            #[trigger] self.links[j]).id.0
        &&& forall|i: int| 0 <= i < self.links.len() ==> (#[trigger] self.links[i]).wf()
    }

    /// Place of a connection, or the number of connections.
    pub open spec fn link_place(self, id: QuicConnectionId) -> int {
        first_place(self.links, |link: LinkView| link.id == id)
    }

    /// Place of an endpoint, or the number of endpoints.
    pub open spec fn endpoint_place(self, socket: u32) -> int {
        first_place(self.endpoints, |endpoint: EndpointView| endpoint.socket == socket)
    }

    /// Place of the endpoint of a caller's listener, or the number of
    /// endpoints.
    pub open spec fn listener_place(self, id: QuicListenerId, owner: u32) -> int {
        first_place(
            self.endpoints,
            |endpoint: EndpointView| endpoint.listener == Some(Listener { id, owner }),
        )
    }

    /// The connection is there.
    pub open spec fn has_link(self, id: QuicConnectionId) -> bool {
        self.link_place(id) < self.links.len()
    }

    /// The books of a connection that is there.
    pub open spec fn link(self, id: QuicConnectionId) -> LinkView {
        self.links[self.link_place(id)]
    }

    /// The books with those of one connection replaced.
    pub open spec fn with_link(self, id: QuicConnectionId, link: LinkView) -> StateView {
        StateView { links: self.links.update(self.link_place(id), link), ..self }
    }

    /// The socket of a connection, if it is there.
    pub open spec fn socket_of(self, id: QuicConnectionId) -> Option<u32> {
        if self.has_link(id) {
            Some(self.link(id).endpoint_socket)
        } else {
            None
        }
    }

    /// Why a caller may not use a connection, if it may not.
    pub open spec fn obstacle(self, id: QuicConnectionId, caller: u32) -> Option<Seq<char>> {
        if !self.has_link(id) {
            Some(id.name() + " 不存在"@)
        } else if self.link(id).owner != caller {
            Some(id.name() + " 不属于调用方"@)
        } else if !self.link(id).started {
            Some(id.name() + " 尚未 start"@)
        } else {
            None
        }
    }

    /// With a place kept for a connection that is about to be made.
    pub open spec fn kept(self) -> StateView {
        StateView {
            reserved_connections: (self.reserved_connections + 1) as usize,
            reserved_handshakes: (self.reserved_handshakes + 1) as usize,
            ..self
        }
    }

    /// A connection is found in its place.
    pub proof fn lemma_own_place(self, place: int)
        requires
            self.wf(),
            0 <= place < self.links.len(),
        ensures
            self.link_place(self.links[place].id) == place,
    {
        let id = self.links[place].id;
        lemma_first_place_is(self.links, |link: LinkView| link.id == id, place);
    }

    /// There is room for one more connection and one more handshake, given
    /// how many connections shake hands.
    pub open spec fn has_capacity(self, config: QuicConfig, handshaking: int) -> bool {
        &&& self.links.len() + self.reserved_connections < config.max_connections
        &&& handshaking + self.reserved_handshakes < config.max_handshakes
    }
}

/// Why a number is no stream number, if it is none.
pub open spec fn stream_obstacle(stream: QuicStreamId) -> Option<Seq<char>> {
    if stream.0 >= VARINT_BOUND {
        Some(stream.name() + " 超出 QUIC stream id 范围"@)
    } else {
        None
    }
}

impl Default for State {
    /// Nothing yet.
    fn default() -> (state: State)
        ensures
            state@ == StateView::empty(),
            state@.wf(),
    {
        let state = State {
            next_listener: 0,
            next_connection: 0,
            endpoints: Vec::new(),
            links: Vec::new(),
            reserved_connections: 0,
            reserved_handshakes: 0,
        };
        assert(state@ =~= StateView::empty());
        state
    }
}

impl State {
    /// The next listener number; zero is never one.
    pub fn listener_id(&mut self) -> (id: QuicListenerId)
        ensures
            id.0 == (if old(self).next_listener == u32::MAX {
                1
            } else {
                (old(self).next_listener + 1) as u32
            }),
            id.0 != 0,
            final(self)@ == (StateView { next_listener: id.0, ..old(self)@ }),
            final(self).endpoints == old(self).endpoints,
            final(self).links == old(self).links,
    {
        self.next_listener = if self.next_listener == u32::MAX {
            1
        } else {
            self.next_listener + 1
        };
        QuicListenerId(self.next_listener)
    }

    /// The next connection number; zero is never one.
    pub fn connection_id(&mut self) -> (id: QuicConnectionId)
        ensures
            id.0 == (if old(self).next_connection == u64::MAX {
                1
            } else {
                (old(self).next_connection + 1) as u64
            }),
            id.0 != 0,
            final(self)@ == (StateView { next_connection: id.0, ..old(self)@ }),
            final(self).endpoints == old(self).endpoints,
            final(self).links == old(self).links,
    {
        self.next_connection = if self.next_connection == u64::MAX {
            1
        } else {
            self.next_connection + 1
        };
        QuicConnectionId(self.next_connection)
    }

    /// There is room for one more connection and one more handshake, given
    /// how many connections shake hands.
    pub fn has_connection_capacity(&self, config: &QuicConfig, handshaking: usize) -> (room: bool)
        ensures
            room == self@.has_capacity(*config, handshaking as int),
    {
        (self.links.len() as u128) + (self.reserved_connections as u128)
            < config.max_connections as u128 && (handshaking as u128) + (
        self.reserved_handshakes as u128) < config.max_handshakes as u128
    }

    /// Keeps a place for a connection that is about to be made.
    pub fn reserve_connect(&mut self, config: &QuicConfig, handshaking: usize) -> (room: bool)
        ensures
            room == old(self)@.has_capacity(*config, handshaking as int),
            final(self)@ == (if room {
                old(self)@.kept()
            } else {
                old(self)@
            }),
    {
        if !self.has_connection_capacity(config, handshaking) {
            return false;
        }
        self.reserved_connections = self.reserved_connections + 1;
        self.reserved_handshakes = self.reserved_handshakes + 1;
        true
    }

    /// Gives a kept place back.
    pub fn release_connect(&mut self)
        ensures
            final(self)@ == (StateView {
                reserved_connections: if old(self).reserved_connections > 0 {
                    (old(self).reserved_connections - 1) as usize
                } else {
                    0
                },
                reserved_handshakes: if old(self).reserved_handshakes > 0 {
                    (old(self).reserved_handshakes - 1) as usize
                } else {
                    0
                },
                ..old(self)@
            }),
    {
        self.reserved_connections = self.reserved_connections.saturating_sub(1);
        self.reserved_handshakes = self.reserved_handshakes.saturating_sub(1);
    }

    /// Place of a connection.
    pub fn find_link(&self, id: QuicConnectionId) -> (place: Option<usize>)
        ensures
            match place {
                Some(place) => place == self@.link_place(id) && place < self.links@.len()
                    && self.links@[place as int].id == id && self@.has_link(id),
                None => !self@.has_link(id),
            },
    {
        let ghost holds = |link: LinkView| link.id == id;
        let mut i: usize = 0;
        while i < self.links.len()
            invariant
                i <= self.links@.len(),
                holds == (|link: LinkView| link.id == id),
                forall|j: int| 0 <= j < i ==> !holds(#[trigger] self@.links[j]),
            decreases self.links@.len() - i,
        {
            assert(self@.links[i as int] == self.links@[i as int]@);
            if self.links[i].id == id {
                proof {
                    lemma_first_place_is(self@.links, holds, i as int);
                }
                return Some(i);
            }
            i = i + 1;
        }
        proof {
            lemma_first_place_is(self@.links, holds, i as int);
        }
        None
    }

    /// Place of an endpoint.
    pub fn find_endpoint(&self, socket: u32) -> (place: Option<usize>)
        ensures
            match place {
                Some(place) => place == self@.endpoint_place(socket) && place
                    < self.endpoints@.len() && self.endpoints@[place as int].socket == socket,
                None => self@.endpoint_place(socket) == self.endpoints@.len(),
            },
    {
        let ghost holds = |endpoint: EndpointView| endpoint.socket == socket;
        let mut i: usize = 0;
        while i < self.endpoints.len()
            invariant
                i <= self.endpoints@.len(),
                holds == (|endpoint: EndpointView| endpoint.socket == socket),
                forall|j: int| 0 <= j < i ==> !holds(#[trigger] self@.endpoints[j]),
            decreases self.endpoints@.len() - i,
        {
            assert(self@.endpoints[i as int] == self.endpoints@[i as int]@);
            if self.endpoints[i].socket == socket {
                proof {
                    lemma_first_place_is(self@.endpoints, holds, i as int);
                }
                return Some(i);
            }
            i = i + 1;
        }
        proof {
            lemma_first_place_is(self@.endpoints, holds, i as int);
        }
        None
    }

    /// Place of the endpoint of a caller's listener.
    pub fn find_listener(&self, id: QuicListenerId, owner: u32) -> (place: Option<usize>)
        ensures
            match place {
                Some(place) => place == self@.listener_place(id, owner) && place
                    < self.endpoints@.len(),
                None => self@.listener_place(id, owner) == self.endpoints@.len(),
            },
    {
        let ghost holds = |endpoint: EndpointView|
            endpoint.listener == Some(Listener { id, owner });
        let mut i: usize = 0;
        while i < self.endpoints.len()
            invariant
                i <= self.endpoints@.len(),
                holds == (|endpoint: EndpointView|
                    endpoint.listener == Some(Listener { id, owner })),
                forall|j: int| 0 <= j < i ==> !holds(#[trigger] self@.endpoints[j]),
            decreases self.endpoints@.len() - i,
        {
            assert(self@.endpoints[i as int] == self.endpoints@[i as int]@);
            if let Some(listener) = self.endpoints[i].listener {
                if listener.id == id && listener.owner == owner {
                    proof {
                        lemma_first_place_is(self@.endpoints, holds, i as int);
                    }
                    return Some(i);
                }
            }
            i = i + 1;
        }
        proof {
            lemma_first_place_is(self@.endpoints, holds, i as int);
        }
        None
    }

    /// Place of a connection that the caller may use, or why it may not.
    pub fn owned_connection(&self, id: QuicConnectionId, caller: u32) -> (result: Result<
        usize,
        String,
    >)
        ensures
            match result {
                Ok(place) => self@.obstacle(id, caller) is None && place == self@.link_place(id)
                    && place < self.links@.len(),
                Err(reason) => self@.obstacle(id, caller) == Some(reason@),
            },
    {
        match self.find_link(id) {
            None => {
                let mut reason = id.text();
                reason.append(" 不存在");
                Err(reason)
            },
            Some(place) => {
                assert(self@.links[place as int] == self.links@[place as int]@);
                if self.links[place].owner != caller {
                    let mut reason = id.text();
                    reason.append(" 不属于调用方");
                    return Err(reason);
                }
                if !self.links[place].started {
                    let mut reason = id.text();
                    reason.append(" 尚未 start");
                    return Err(reason);
                }
                Ok(place)
            },
        }
    }
}

} // verus!
