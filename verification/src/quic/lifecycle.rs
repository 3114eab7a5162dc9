//! Endpoints and connections from their first datagram to their last: what
//! comes in, who is let in, and what happens when a socket fails.

use crate::net::event::SocketEvent;
use crate::quic::command::Answer;
use crate::quic::engine::{self, Arrival, Datagram, Engine, Port};
use crate::quic::event::{clone_text, QuicConnectionId, QuicEvent, QuicListenerId};
use crate::quic::link::Link;
use crate::quic::output::{DriveOutput, Pending};
use crate::quic::service::QuicService;
use crate::quic::state::{Bound, EndpointState, Listener, State};
#[allow(unused_imports)]
use crate::{
    places::{first_place, lemma_first_place_is},
    quic::{
        books::rank,
        command::AnswerView,
        event::{text_view, EventView},
        link::LinkView,
        output::{OutputView, PacketView},
        engine::{Asked, Met},
        service::{asked_one, drive_asks, driven, ports_driven, shaken, Work},
        state::{EndpointView, StateView},
    },
};
use vstd::prelude::*;
#[allow(unused_imports)]
use vstd::string::StringSliceAdditionalSpecFns;

verus! {

/// The connections of an endpoint with one more entered under the engine's
/// number for it; one with the same number is replaced.
pub open spec fn with_bound(connections: Seq<Bound>, bound: Bound) -> Seq<Bound> {
    let place = first_place(connections, |b: Bound| b.handle == bound.handle);
    if place < connections.len() {
        connections.update(place, bound)
    } else {
        connections.push(bound)
    }
}

/// What the failure of its socket tells the owner of a connection and
/// whoever waits for it.
pub open spec fn link_failed(link: LinkView, output: OutputView, reason: Seq<char>) -> OutputView {
    let answered = output.reply_to(link.connect_pending, AnswerView::Failed(reason));
    let told = if link.announced {
        answered.event(link.owner, EventView::Error { id: link.id, reason })
    } else {
        answered
    };
    link.fail_pending(told, reason).1
}

/// The number after `number`; zero is never one.
pub open spec fn next_connection(number: u64) -> QuicConnectionId {
    if number == u64::MAX {
        QuicConnectionId(1)
    } else {
        QuicConnectionId((number + 1) as u64)
    }
}

/// The number after `number`; zero is never one.
pub open spec fn next_listener(number: u32) -> QuicListenerId {
    if number == u32::MAX {
        QuicListenerId(1)
    } else {
        QuicListenerId((number + 1) as u32)
    }
}

/// A connection about which nothing has happened yet.
pub open spec fn fresh_link(
    id: QuicConnectionId,
    endpoint_socket: u32,
    owner: u32,
    listener: Option<QuicListenerId>,
    local: Option<Seq<char>>,
    started: bool,
    connect_pending: Option<Pending>,
) -> LinkView {
    LinkView {
        id,
        endpoint_socket,
        owner,
        listener,
        local,
        started,
        announced: false,
        alpn: None,
        connect_pending,
        queued_events: Seq::empty(),
        writes: Seq::empty(),
        finishes: Seq::empty(),
        buffered_bytes: 0,
        warned: false,
    }
}

/// An endpoint about which nothing has happened yet.
pub open spec fn fresh_endpoint(
    socket: u32,
    local: Option<Seq<char>>,
    listener: Option<Listener>,
    connections: Seq<Bound>,
) -> EndpointView {
    EndpointView {
        socket,
        local,
        listener,
        connections,
        timer_generation: 0,
        timer_deadline: None,
    }
}

impl StateView {
    /// With a connection that the listener of an endpoint has let in.
    pub open spec fn with_accepted(self, place: int, handle: usize) -> StateView {
        let endpoint = self.endpoints[place];
        let listener = endpoint.listener->0;
        let id = next_connection(self.next_connection);
        StateView {
            next_connection: id.0,
            endpoints: self.endpoints.update(
                place,
                EndpointView {
                    connections: with_bound(endpoint.connections, Bound { handle, id }),
                    ..endpoint
                },
            ),
            ..self
        }.with_new_link(
            fresh_link(
                id,
                endpoint.socket,
                listener.owner,
                Some(listener.id),
                endpoint.local,
                false,
                None,
            ),
        )
    }

    /// With a connection that a caller has asked for, on an endpoint of its
    /// own.
    pub open spec fn with_connected(
        self,
        pending: Pending,
        socket: u32,
        local: Option<Seq<char>>,
        handle: usize,
    ) -> StateView {
        let id = next_connection(self.next_connection);
        StateView { next_connection: id.0, ..self }.with_endpoint(
            fresh_endpoint(socket, local, None, seq![Bound { handle, id }]),
        ).with_new_link(fresh_link(id, socket, pending.source, None, local, true, Some(pending)))
    }

    /// With the kept place for a connection given back.
    pub open spec fn released(self) -> StateView {
        StateView {
            reserved_connections: if self.reserved_connections > 0 {
                (self.reserved_connections - 1) as usize
            } else {
                0
            },
            reserved_handshakes: if self.reserved_handshakes > 0 {
                (self.reserved_handshakes - 1) as usize
            } else {
                0
            },
            ..self
        }
    }

    /// Without the connections of a failed socket, and what that tells
    /// everybody.
    pub open spec fn failed_all(self, bounds: Seq<Bound>, output: OutputView, reason: Seq<char>) -> (
        StateView,
        OutputView,
    )
        decreases bounds.len(),
    {
        if bounds.len() == 0 {
            (self, output)
        } else {
            let (s, o) = self.failed_all(bounds.drop_last(), output, reason);
            let id = bounds.last().id;
            if s.has_link(id) {
                (
                    StateView { links: s.links.remove(s.link_place(id)), ..s },
                    link_failed(s.link(id), o, reason),
                )
            } else {
                (s, o)
            }
        }
    }

    /// What the failure of a socket leaves.
    pub open spec fn failed(self, socket: u32, reason: Seq<char>) -> (StateView, OutputView) {
        let place = self.endpoint_place(socket);
        if place >= self.endpoints.len() {
            (self, OutputView::empty())
        } else {
            StateView { endpoints: self.endpoints.remove(place), ..self }.failed_all(
                self.endpoints[place].connections,
                OutputView::empty(),
                reason,
            )
        }
    }

    /// The endpoint's timer is the one with this number.
    pub open spec fn timer_due(self, socket: u32, generation: u64) -> bool {
        let place = self.endpoint_place(socket);
        place < self.endpoints.len() && self.endpoints[place].timer_generation == generation
    }

    /// With the timer of an endpoint gone off.
    pub open spec fn timer_gone(self, socket: u32) -> StateView {
        let place = self.endpoint_place(socket);
        StateView {
            endpoints: self.endpoints.update(
                place,
                EndpointView { timer_deadline: None, ..self.endpoints[place] },
            ),
            ..self
        }
    }
}

/// What came of a datagram that a socket received.
#[verifier::ext_equal]
pub enum Seen {
    /// It was for a connection, or for nobody.
    Passed,
    /// It started a connection, which the engine knows by this number.
    Accepted { handle: usize },
    /// It is answered with another datagram.
    Answered { destination: Seq<char>, data: Seq<u8> },
}

/// What a received datagram leaves, before the socket is driven.
pub open spec fn arrived(state: StateView, socket: u32, seen: Seen) -> (StateView, OutputView) {
    match seen {
        Seen::Passed => (state, OutputView::empty()),
        Seen::Accepted { handle } => (
            state.with_accepted(state.endpoint_place(socket), handle),
            OutputView::empty(),
        ),
        Seen::Answered { destination, data } => (
            state,
            OutputView::empty().packet(PacketView { socket, destination, data }),
        ),
    }
}

impl State {
    /// The connection that an endpoint knows by the engine's number for it.
    fn bound_to(&self, place: usize, handle: usize) -> (id: Option<QuicConnectionId>)
        requires
            place < self.endpoints@.len(),
        ensures
            ({
                let connections = self.endpoints@[place as int].connections@;
                let found = first_place(connections, |b: Bound| b.handle == handle);
                id == (if found < connections.len() {
                    Some(connections[found].id)
                } else {
                    None
                })
            }),
    {
        let ghost connections = self.endpoints@[place as int].connections@;
        let ghost holds = |b: Bound| b.handle == handle;
        let mut i: usize = 0;
        while i < self.endpoints[place].connections.len()
            invariant
                place < self.endpoints@.len(),
                connections == self.endpoints@[place as int].connections@,
                i <= connections.len(),
                holds == (|b: Bound| b.handle == handle),
                forall|j: int| 0 <= j < i ==> !holds(#[trigger] connections[j]),
            decreases connections.len() - i,
        {
            if self.endpoints[place].connections[i].handle == handle {
                proof {
                    lemma_first_place_is(connections, holds, i as int);
                }
                return Some(self.endpoints[place].connections[i].id);
            }
            i = i + 1;
        }
        proof {
            lemma_first_place_is(connections, holds, i as int);
        }
        None
    }

    /// Enters a connection that the listener of an endpoint has let in. Its
    /// place is returned, and whether another one was replaced.
    pub fn enter_accepted(&mut self, place: usize, handle: usize) -> (entered: (usize, bool))
        requires
            old(self)@.wf(),
            place < old(self).endpoints@.len(),
            old(self).endpoints@[place as int].listener is Some,
        ensures
            final(self)@ == old(self)@.with_accepted(place as int, handle),
            final(self)@.wf(),
            entered.0 == rank(old(self)@.links, next_connection(old(self)@.next_connection)),
            entered.0 <= old(self)@.links.len(),
            entered.1 == (entered.0 < old(self)@.links.len()
                && old(self)@.links[entered.0 as int].id == next_connection(
                old(self)@.next_connection,
            )),
            final(self)@.links == (if entered.1 {
                old(self)@.links.update(entered.0 as int, final(self)@.links[entered.0 as int])
            } else {
                old(self)@.links.insert(entered.0 as int, final(self)@.links[entered.0 as int])
            }),
            entered.1 ==> entered.0 < old(self)@.links.len(),
            final(self)@.links[entered.0 as int].listener is Some,
            final(self)@.endpoints.len() == old(self)@.endpoints.len(),
    {
        let ghost before = self@;
        let ghost endpoint = self@.endpoints[place as int];
        assert(endpoint == self.endpoints@[place as int]@);
        let id = self.connection_id();
        let bound = Bound { handle, id };
        let ghost connections = self.endpoints@[place as int].connections@;
        let ghost holds = |b: Bound| b.handle == handle;
        let mut i: usize = 0;
        let ghost numbered = *self;
        while i < self.endpoints[place].connections.len()
            && self.endpoints[place].connections[i].handle != handle
            invariant
                *self == numbered,
                place < self.endpoints@.len(),
                connections == self.endpoints@[place as int].connections@,
                i <= connections.len(),
                holds == (|b: Bound| b.handle == handle),
                forall|j: int| 0 <= j < i ==> !holds(#[trigger] connections[j]),
            decreases connections.len() - i,
        {
            i = i + 1;
        }
        proof {
            lemma_first_place_is(connections, holds, i as int);
        }
        if i < self.endpoints[place].connections.len() {
            self.endpoints[place].connections.set(i, bound);
        } else {
            self.endpoints[place].connections.push(bound);
        }
        let listener = self.endpoints[place].listener.unwrap();
        let link = Link::new(
            id,
            self.endpoints[place].socket,
            listener.owner,
            Some(listener.id),
            clone_text(&self.endpoints[place].local),
            false,
            None,
        );
        proof {
            assert(self@.endpoints =~= before.endpoints.update(
                place as int,
                EndpointView {
                    connections: with_bound(endpoint.connections, bound),
                    ..endpoint
                },
            ));
            assert(self@.links =~= before.links);
            self@.lemma_same_sockets(before);
        }
        self.put_link(link)
    }

    /// Enters a connection that a caller has asked for, on an endpoint of its
    /// own. Its place is returned, and whether another one was replaced.
    pub fn enter_connected(
        &mut self,
        pending: Pending,
        socket: u32,
        local: Option<String>,
        handle: usize,
    ) -> (entered: (QuicConnectionId, Option<usize>, usize, bool))
        requires
            old(self)@.wf(),
        ensures
            final(self)@ == old(self)@.with_connected(pending, socket, text_view(local), handle),
            final(self)@.wf(),
            entered.0 == next_connection(old(self)@.next_connection),
            match entered.1 {
                Some(place) => place < old(self)@.endpoints.len() && final(self)@.endpoints.len()
                    == old(self)@.endpoints.len() && place == old(self)@.endpoint_place(socket),
                None => final(self)@.endpoints.len() == old(self)@.endpoints.len() + 1 && old(
                    self)@.endpoint_place(socket) == old(self)@.endpoints.len(),
            },
            entered.2 == rank(old(self)@.links, next_connection(old(self)@.next_connection)),
            entered.2 <= old(self)@.links.len(),
            entered.3 == (entered.2 < old(self)@.links.len()
                && old(self)@.links[entered.2 as int].id == next_connection(
                old(self)@.next_connection,
            )),
            final(self)@.links == (if entered.3 {
                old(self)@.links.update(entered.2 as int, final(self)@.links[entered.2 as int])
            } else {
                old(self)@.links.insert(entered.2 as int, final(self)@.links[entered.2 as int])
            }),
            entered.3 ==> entered.2 < old(self)@.links.len(),
            final(self)@.links[entered.2 as int].listener is None,
    {
        let ghost before = self@;
        let id = self.connection_id();
        let mut connections: Vec<Bound> = Vec::new();
        connections.push(Bound { handle, id });
        let endpoint = EndpointState {
            socket,
            local: clone_text(&local),
            listener: None,
            connections,
            timer_generation: 0,
            timer_deadline: None,
        };
        proof {
            self@.lemma_same_sockets(before);
            assert(endpoint@ =~= fresh_endpoint(
                socket,
                text_view(local),
                None,
                seq![Bound { handle, id }],
            ));
        }
        let replaced = self.put_endpoint(endpoint);
        let link = Link::new(id, socket, pending.source, None, local, true, Some(pending));
        let entered = self.put_link(link);
        (id, replaced, entered.0, entered.1)
    }
}

/// The connections of the engine without those of a failed socket.
pub open spec fn engines_failed(
    state: StateView,
    bounds: Seq<Bound>,
    engines: Seq<Engine>,
    reason: Seq<char>,
) -> Seq<Engine>
    decreases bounds.len(),
{
    if bounds.len() == 0 {
        engines
    } else {
        let left = engines_failed(state, bounds.drop_last(), engines, reason);
        let s = state.failed_all(bounds.drop_last(), OutputView::empty(), reason).0;
        let id = bounds.last().id;
        if s.has_link(id) {
            left.remove(s.link_place(id))
        } else {
            left
        }
    }
}

/// What the failure of a socket leaves of endpoints and connections: its own are gone, and the
/// others are as they were.
pub open spec fn went_down(
    before: QuicService,
    socket: u32,
    reason: Seq<char>,
    after: QuicService,
) -> bool {
    let state = before.state@;
    let place = state.endpoint_place(socket);
    if place >= state.endpoints.len() {
        after.endpoints@ == before.endpoints@ && after.engines@ == before.engines@
    } else {
        let left = StateView { endpoints: state.endpoints.remove(place), ..state };
        &&& after.endpoints@ == before.endpoints@.remove(place)
        &&& after.engines@ == engines_failed(
            left,
            state.endpoints[place].connections,
            before.engines@,
            reason,
        )
    }
}

/// The place of the connection that the engine knows by this number on a socket, or the number of
/// connections.
pub open spec fn heard_place(state: StateView, socket: u32, handle: usize) -> int {
    let connections = state.endpoints[state.endpoint_place(socket)].connections;
    let found = first_place(connections, |b: Bound| b.handle == handle);
    if found < connections.len() {
        state.link_place(connections[found].id)
    } else {
        state.links.len() as int
    }
}

/// How a datagram is taken in: each connection is asked whether it is up, and what the engine makes
/// of the datagram is seen to.
pub open spec fn took_in(
    before: QuicService,
    after: QuicService,
    socket: u32,
    from: Seq<char>,
    data: Seq<u8>,
    now: u64,
    arrival: Arrival,
    handshaking: int,
    seen: Seen,
) -> bool {
    let state = before.state@;
    let listens = state.endpoints[state.endpoint_place(socket)].listener is Some;
    &&& after.state@ == arrived(state, socket, seen).0
    &&& after.config == before.config
    &&& port_took_in(
        before.endpoints@,
        after.endpoints@,
        state.endpoint_place(socket),
        Met::Receive { now, from, data, arrival },
        listens && state.has_capacity(before.config, handshaking),
        now,
        seen,
    )
    &&& exists|engines: Seq<Engine>|
        {
            &&& #[trigger] shaken(before.engines@, engines, handshaking)
            &&& match arrival {
                Arrival::Nothing => seen is Passed && after.engines@ == engines,
                Arrival::Event { handle, event } => seen is Passed && asked_one(
                    engines,
                    after.engines@,
                    heard_place(state, socket, handle),
                    seq![Asked::Told { event }],
                ),
                Arrival::Attempt(_) => if listens && state.has_capacity(
                    before.config,
                    handshaking,
                ) {
                    if seen is Accepted {
                        let_in(
                            state.links,
                            next_connection(state.next_connection),
                            engines,
                            after.engines@,
                            true,
                        )
                    } else {
                        after.engines@ == engines
                    }
                } else {
                    seen is Answered && after.engines@ == engines
                },
                Arrival::Response(datagram) => seen == (Seen::Answered {
                    destination: datagram.destination@,
                    data: datagram.data@,
                }) && after.engines@ == engines,
            }
        }
}

/// The endpoint of a socket is given a datagram. A connection that somebody wants to make is let
/// in where there is room, and refused where there is none.
pub open spec fn port_took_in(
    before: Seq<Port>,
    after: Seq<Port>,
    place: int,
    received: Met,
    room: bool,
    now: u64,
    seen: Seen,
) -> bool {
    let met = before[place].met().push(received);
    &&& after == before.update(place, after[place])
    &&& after[place].server() == before[place].server()
    &&& match received->arrival {
        Arrival::Attempt(incoming) => exists|handle: Option<usize>, answer: Option<
            (Seq<char>, Seq<u8>),
        >|
            {
                &&& seen == #[trigger] seen_as(handle, answer)
                &&& after[place].met() == met.push(
                    if room {
                        Met::Accept { now, incoming, handle, answer }
                    } else {
                        Met::Refuse { incoming, answer }
                    },
                )
            },
        _ => after[place].met() == met,
    }
}

/// What came of a datagram that wants a connection.
pub open spec fn seen_as(handle: Option<usize>, answer: Option<(Seq<char>, Seq<u8>)>) -> Seen {
    match (handle, answer) {
        (Some(handle), _) => Seen::Accepted { handle },
        (None, Some((destination, data))) => Seen::Answered { destination, data },
        (None, None) => Seen::Passed,
    }
}

/// The connections of the engine with one more, in the place of its number. One with the same
/// number is replaced.
pub open spec fn placed(
    links: Seq<LinkView>,
    id: QuicConnectionId,
    engines: Seq<Engine>,
    engine: Engine,
) -> Seq<Engine> {
    let place = rank(links, id);
    if place < links.len() && links[place].id == id {
        engines.update(place, engine)
    } else {
        engines.insert(place, engine)
    }
}

/// A connection that was asked for nothing yet stands in the place of its number.
pub open spec fn let_in(
    links: Seq<LinkView>,
    id: QuicConnectionId,
    before: Seq<Engine>,
    after: Seq<Engine>,
    server: bool,
) -> bool {
    exists|engine: Engine|
        {
            &&& engine.server() == server
            &&& engine.asked().len() == 0
            &&& after == #[trigger] placed(links, id, before, engine)
        }
}

/// What a received datagram leaves: nothing where no endpoint has the socket. Else it is seen to,
/// and the socket is driven.
pub open spec fn came(
    before: QuicService,
    socket: u32,
    from: Seq<char>,
    data: Seq<u8>,
    now: u64,
    after: QuicService,
    output: OutputView,
) -> bool {
    let state = before.state@;
    if state.endpoint_place(socket) >= state.endpoints.len() {
        after == before && output == OutputView::empty()
    } else {
        exists|
            middle: QuicService,
            arrival: Arrival,
            handshaking: int,
            seen: Seen,
            work: Seq<Work>,
            drained: Seq<Bound>,
            deadline: Option<u64>,
        |
            {
                &&& #[trigger] took_in(
                    before,
                    middle,
                    socket,
                    from,
                    data,
                    now,
                    arrival,
                    handshaking,
                    seen,
                )
                &&& ports_driven(
                    middle.state@,
                    middle.endpoints@,
                    socket,
                    after.state@,
                    after.endpoints@,
                )
                &&& (after.state@, output) == after_datagram(
                    arrived(state, socket, seen).1,
                    #[trigger] driven(
                        middle.state@,
                        socket,
                        now,
                        before.config.write_low_water as int,
                        work,
                        drained,
                        deadline,
                    ),
                )
                &&& drive_asks(
                    middle.state@,
                    middle.engines@,
                    middle.endpoints@,
                    socket,
                    now,
                    before.config,
                    work,
                    drained,
                    deadline,
                    after.state@,
                    after.engines@,
                    after.endpoints@,
                )
            }
    }
}

impl QuicService {
    /// A datagram came in on a socket: it is passed to its connection, starts
    /// a new one, is refused or is answered, and then the socket is driven.
    pub fn on_datagram(&mut self, socket: u32, from: &str, data: &Vec<u8>, now: u64) -> (output:
        DriveOutput)
        requires
            old(self).wf(),
        ensures
            final(self).wf(),
            final(self).config == old(self).config,
            final(self).base == old(self).base,
            came(*old(self), socket, from@, data@, now, *final(self), output@),
    {
        let mut output = DriveOutput::default();
        let ghost start = self.state@;
        let place = match self.state.find_endpoint(socket) {
            None => {
                return output;
            },
            Some(place) => place,
        };
        assert(start.endpoints[place as int] == self.state.endpoints@[place as int]@);
        let handshaking: usize = self.handshake_count();
        let ghost engines = self.engines@;
        let ghost mut seen = Seen::Passed;
        let arrival = engine::receive(&mut self.endpoints[place], &self.base, now, from, data);
        let ghost what = arrival;
        let ghost mut number: Option<usize> = None;
        let ghost mut answer: Option<(Seq<char>, Seq<u8>)> = None;
        match arrival {
            Arrival::Nothing => {},
            Arrival::Event { handle, event } => {
                let ghost told = Asked::Told { event };
                let ghost heard = heard_place(start, socket, handle);
                if let Some(id) = self.state.bound_to(place, handle) {
                    if let Some(link) = self.state.find_link(id) {
                        engine::connection_event(&mut self.engines[link], event);
                        assert(engines[heard].asked() + seq![told] =~= engines[heard].asked().push(
                            told,
                        ));
                    }
                }
                assert(asked_one(engines, self.engines@, heard, seq![told]));
            },
            Arrival::Attempt(incoming) => {
                let room = self.state.has_connection_capacity(&self.config, handshaking);
                if room && self.state.endpoints[place].listener.is_some() {
                    match engine::accept(&mut self.endpoints[place], &self.base, now, incoming) {
                        Ok((handle, engine)) => {
                            self.enter(place, handle, engine);
                            proof {
                                seen = Seen::Accepted { handle };
                                number = Some(handle);
                            }
                        },
                        Err(Some(datagram)) => {
                            let Datagram { destination, data } = datagram;
                            proof {
                                seen = Seen::Answered {
                                    destination: destination@,
                                    data: data@,
                                };
                                answer = Some((destination@, data@));
                            }
                            output.packet(socket, destination, data);
                        },
                        Err(None) => {},
                    }
                } else {
                    let Datagram { destination, data } = engine::refuse(
                        &mut self.endpoints[place],
                        incoming,
                    );
                    proof {
                        seen = Seen::Answered { destination: destination@, data: data@ };
                        answer = Some((destination@, data@));
                    }
                    output.packet(socket, destination, data);
                }
            },
            Arrival::Response(datagram) => {
                let Datagram { destination, data } = datagram;
                proof {
                    seen = Seen::Answered { destination: destination@, data: data@ };
                    answer = Some((destination@, data@));
                }
                output.packet(socket, destination, data);
            },
        }
        let ghost before = arrived(start, socket, seen);
        assert(self.state@ == before.0);
        assert(output@ == before.1);
        let ghost middle = *self;
        assert(shaken(old(self).engines@, engines, handshaking as int));
        proof {
            let ports = old(self).endpoints@;
            assert(self.endpoints@ =~= ports.update(place as int, self.endpoints@[place as int]));
            assert(seen_as(number, answer) == seen);
        }
        assert(took_in(
            *old(self),
            middle,
            socket,
            from@,
            data@,
            now,
            what,
            handshaking as int,
            seen,
        ));
        let rest = self.drive(socket, now);
        output.extend(rest);
        output
    }

    /// Something happened to a socket. Datagrams are taken in, and a socket
    /// that is gone takes its connections with it; all else is no concern.
    pub fn on_socket(&mut self, event: &SocketEvent, now: u64) -> (output: DriveOutput)
        requires
            old(self).wf(),
        ensures
            final(self).wf(),
            final(self).config == old(self).config,
            final(self).base == old(self).base,
            match event {
                SocketEvent::Udp { id, from, data } => came(
                    *old(self),
                    id.0,
                    from@,
                    data@,
                    now,
                    *final(self),
                    output@,
                ),
                SocketEvent::Close { id } => {
                    &&& (final(self).state@, output@) == old(self).state@.failed(
                        id.0,
                        "底层 UDP socket 已关闭"@,
                    )
                    &&& went_down(*old(self), id.0, "底层 UDP socket 已关闭"@, *final(self))
                },
                SocketEvent::Error { id, .. } => {
                    &&& (final(self).state@, output@) == old(self).state@.failed(
                        id.0,
                        "底层 UDP socket 已关闭"@,
                    )
                    &&& went_down(*old(self), id.0, "底层 UDP socket 已关闭"@, *final(self))
                },
                _ => *final(self) == *old(self) && output@ == OutputView::empty(),
            },
    {
        match event {
            SocketEvent::Udp { id, from, data } => self.on_datagram(
                id.raw(),
                from.as_str(),
                data,
                now,
            ),
            SocketEvent::Close { id } => self.endpoint_failed(id.raw(), "底层 UDP socket 已关闭"),
            SocketEvent::Error { id, .. } => self.endpoint_failed(
                id.raw(),
                "底层 UDP socket 已关闭",
            ),
            _ => DriveOutput::default(),
        }
    }

    /// Enters a connection that a listener has let in.
    fn enter(&mut self, place: usize, handle: usize, engine: Engine)
        requires
            old(self).wf(),
            engine.server(),
            place < old(self).endpoints@.len(),
            old(self).state.endpoints@[place as int].listener is Some,
        ensures
            final(self).wf(),
            final(self).state@ == old(self).state@.with_accepted(place as int, handle),
            final(self).config == old(self).config,
            final(self).base == old(self).base,
            final(self).endpoints == old(self).endpoints,
            final(self).engines@ == placed(
                old(self).state@.links,
                next_connection(old(self).state@.next_connection),
                old(self).engines@,
                engine,
            ),
    {
        let ghost before = self.state;
        let entered = self.state.enter_accepted(place, handle);
        if entered.1 {
            self.engines.set(entered.0, engine);
        } else {
            self.engines.insert(entered.0, engine);
        }
        proof {
            lemma_still_paired(
                before,
                old(self).engines@,
                self.state,
                self.engines@,
                entered.0 as int,
                entered.1,
                engine,
            );
        }
    }

    /// A socket is gone: its connections go with it, and everybody who waits
    /// for them is told the reason.
    pub fn endpoint_failed(&mut self, socket: u32, reason: &str) -> (output: DriveOutput)
        requires
            old(self).wf(),
        ensures
            final(self).wf(),
            (final(self).state@, output@) == old(self).state@.failed(socket, reason@),
            went_down(*old(self), socket, reason@, *final(self)),
            final(self).config == old(self).config,
            final(self).base == old(self).base,
    {
        let mut output = DriveOutput::default();
        let ghost start = self.state@;
        let place = match self.state.find_endpoint(socket) {
            None => {
                return output;
            },
            Some(place) => place,
        };
        assert(start.endpoints[place as int] == self.state.endpoints@[place as int]@);
        let _ = self.endpoints.remove(place);
        let endpoint = self.state.endpoints.remove(place);
        let ghost bounds = endpoint.connections@;
        let ghost left = self.state@;
        proof {
            assert(self.state@.endpoints =~= start.endpoints.remove(place as int));
            assert(self.state@.links =~= start.links);
            self.state@.lemma_fewer_endpoints(start, place as int);
            assert(bounds.take(0) =~= Seq::empty());
        }
        let mut i: usize = 0;
        while i < endpoint.connections.len()
            invariant
                i <= endpoint.connections@.len(),
                bounds == endpoint.connections@,
                self.wf(),
                self.config == old(self).config,
                self.base == old(self).base,
                self.endpoints@ == old(self).endpoints@.remove(place as int),
                self.engines@ == engines_failed(
                    left,
                    bounds.take(i as int),
                    old(self).engines@,
                    reason@,
                ),
                (self.state@, output@) == left.failed_all(
                    bounds.take(i as int),
                    OutputView::empty(),
                    reason@,
                ),
            decreases endpoint.connections@.len() - i,
        {
            self.fail_link(endpoint.connections[i].id, reason, &mut output);
            assert(bounds.take(i + 1).drop_last() =~= bounds.take(i as int));
            i = i + 1;
        }
        assert(bounds.take(i as int) =~= bounds);
        output
    }

    /// Takes one connection of a failed socket out.
    fn fail_link(&mut self, id: QuicConnectionId, reason: &str, output: &mut DriveOutput)
        requires
            old(self).wf(),
        ensures
            final(self).wf(),
            final(self).config == old(self).config,
            final(self).base == old(self).base,
            old(self).state@.has_link(id) ==> {
                &&& final(self).state@ == (StateView {
                    links: old(self).state@.links.remove(old(self).state@.link_place(id)),
                    ..old(self).state@
                })
                &&& final(output)@ == link_failed(
                    old(self).state@.link(id),
                    old(output)@,
                    reason@,
                )
            },
            !old(self).state@.has_link(id) ==> final(self).state@ == old(self).state@
                && final(output)@ == old(output)@,
            final(self).endpoints == old(self).endpoints,
            final(self).engines@ == (if old(self).state@.has_link(id) {
                old(self).engines@.remove(old(self).state@.link_place(id))
            } else {
                old(self).engines@
            }),
    {
        if let Some(place) = self.state.find_link(id) {
            let ghost before = self.state;
            let mut link = self.state.links.remove(place);
            let _ = self.engines.remove(place);
            proof {
                assert(before@.links[place as int] == link@);
                assert(self.state@.links =~= before@.links.remove(place as int));
                assert(self.state@.endpoints =~= before@.endpoints);
                self.state@.lemma_fewer_links(before@, place as int);
            }
            let pending = link.connect_pending.take();
            output.reply_to(pending, Answer::Failed(reason.to_owned()));
            if link.announced {
                output.event(link.owner, QuicEvent::Error { id, reason: reason.to_owned() });
            }
            link.fail_pending_writes(reason, output);
        }
    }

    /// The timer of an endpoint has gone off. If it is the last one set, the
    /// connections that want to be woken are, and the socket is driven.
    pub fn tick(&mut self, socket: u32, generation: u64, now: u64) -> (output: DriveOutput)
        requires
            old(self).wf(),
        ensures
            final(self).wf(),
            final(self).config == old(self).config,
            final(self).base == old(self).base,
            ticked(*old(self), socket, generation, now, *final(self), output@),
    {
        let place = match self.state.find_endpoint(socket) {
            None => {
                return DriveOutput::default();
            },
            Some(place) => place,
        };
        let ghost start = self.state;
        assert(start@.endpoints[place as int] == self.state.endpoints@[place as int]@);
        if self.state.endpoints[place].timer_generation != generation {
            return DriveOutput::default();
        }
        self.state.endpoints[place].timer_deadline = None;
        proof {
            assert(self.state@.endpoints =~= start@.timer_gone(socket).endpoints);
            assert(self.state@.links =~= start@.links);
            self.state@.lemma_same_sockets(start@);
        }
        let ghost engines = self.engines@;
        let mut i: usize = 0;
        while i < self.state.links.len()
            invariant
                self.wf(),
                self.state@ == start@.timer_gone(socket),
                self.config == old(self).config,
                self.base == old(self).base,
                self.endpoints == old(self).endpoints,
                i <= self.state.links@.len(),
                self.engines@.len() == engines.len(),
                start@.links.len() == engines.len(),
                forall|k: int|
                    0 <= k < i ==> roused(
                        start@.links[k],
                        engines[k].asked(),
                        (#[trigger] self.engines@[k]).asked(),
                        socket,
                        now,
                    ),
                forall|k: int|
                    i <= k < engines.len() ==> (#[trigger] self.engines@[k]) == engines[k],
            decreases self.state.links@.len() - i,
        {
            let ghost record = self.engines@[i as int].asked();
            assert(self.state@.links[i as int] == self.state.links@[i as int]@);
            if self.state.links[i].endpoint_socket == socket {
                let at = engine::next_timeout(&mut self.engines[i], &self.base);
                let ghost asked = record.push(Asked::Timeout { at });
                if let Some(at) = at {
                    if at <= now {
                        engine::wake(&mut self.engines[i], &self.base, now);
                    }
                }
                assert(roused_at(record, self.engines@[i as int].asked(), at, now));
            }
            i = i + 1;
        }
        assert(woken(start@.links, engines, self.engines@, socket, now));
        self.drive(socket, now)
    }

    /// The time to set a connection up is over. One that is still waited for
    /// and not up is closed and its caller is answered.
    pub fn connect_timeout(&mut self, id: QuicConnectionId, now: u64) -> (output: DriveOutput)
        requires
            old(self).wf(),
        ensures
            final(self).wf(),
            final(self).config == old(self).config,
            final(self).base == old(self).base,
            overdue(*old(self), id, now, *final(self), output@),
    {
        let mut output = DriveOutput::default();
        let place = match self.state.find_link(id) {
            None => {
                return output;
            },
            Some(place) => place,
        };
        let ghost start = self.state;
        assert(start@.links[place as int] == self.state.links@[place as int]@);
        if self.state.links[place].connect_pending.is_none() {
            return output;
        }
        let ghost engines = self.engines@;
        let ghost record = self.engines@[place as int].asked();
        if !engine::is_handshaking(&mut self.engines[place]) {
            assert(record.push(Asked::Handshaking { handshaking: false }) =~= record + up_asked());
            assert(asked_one(engines, self.engines@, place as int, up_asked()));
            return output;
        }
        engine::close(
            &mut self.engines[place],
            &self.base,
            now,
            0,
            "connect timeout".as_bytes(),
        );
        let pending = self.state.links[place].connect_pending.take();
        output.reply_to(pending, Answer::Failed("QUIC 连接超时".to_owned()));
        let socket: u32 = self.state.links[place].endpoint_socket;
        proof {
            let before = start.links@[place as int]@;
            before.lemma_same_books(self.state.links@[place as int]@);
            assert(self.state.links@ =~= start.links@.update(
                place as int,
                self.state.links@[place as int],
            ));
            self.state.lemma_one_link(start, place as int);
            assert(self.state@ == timed_out(start@, id));
            assert(self.engines@[place as int].asked() =~= record + overdue_asked(now));
            assert(asked_one(engines, self.engines@, place as int, overdue_asked(now)));
        }
        let rest = self.drive(socket, now);
        output.extend(rest);
        output
    }
}

/// What is left when a timer of an endpoint has gone off: nothing changes where it is not the last
/// one set; else the connections that want to be woken are, and the socket is driven.
pub open spec fn ticked(
    before: QuicService,
    socket: u32,
    generation: u64,
    now: u64,
    after: QuicService,
    output: OutputView,
) -> bool {
    let state = before.state@;
    if !state.timer_due(socket, generation) {
        after == before && output == OutputView::empty()
    } else {
        exists|
            engines: Seq<Engine>,
            work: Seq<Work>,
            drained: Seq<Bound>,
            deadline: Option<u64>,
        |
            {
                &&& #[trigger] woken(state.links, before.engines@, engines, socket, now)
                &&& (after.state@, output) == #[trigger] driven(
                    state.timer_gone(socket),
                    socket,
                    now,
                    before.config.write_low_water as int,
                    work,
                    drained,
                    deadline,
                )
                &&& drive_asks(
                    state.timer_gone(socket),
                    engines,
                    before.endpoints@,
                    socket,
                    now,
                    before.config,
                    work,
                    drained,
                    deadline,
                    after.state@,
                    after.engines@,
                    after.endpoints@,
                )
                &&& ports_driven(
                    state.timer_gone(socket),
                    before.endpoints@,
                    socket,
                    after.state@,
                    after.endpoints@,
                )
            }
    }
}

/// A connection was asked when it wants to be woken, and is woken where that is due.
pub open spec fn roused_at(
    before: Seq<Asked>,
    after: Seq<Asked>,
    at: Option<u64>,
    now: u64,
) -> bool {
    let asked = before.push(Asked::Timeout { at });
    after == if at is Some && at->0 <= now {
        asked.push(Asked::Wake { now })
    } else {
        asked
    }
}

/// The connections of a socket that want to be woken are; one of another socket is asked nothing.
pub open spec fn roused(
    link: LinkView,
    before: Seq<Asked>,
    after: Seq<Asked>,
    socket: u32,
    now: u64,
) -> bool {
    if link.endpoint_socket == socket {
        exists|at: Option<u64>| #[trigger] roused_at(before, after, at, now)
    } else {
        after == before
    }
}

/// The connections of a socket that want to be woken are.
pub open spec fn woken(
    links: Seq<LinkView>,
    before: Seq<Engine>,
    after: Seq<Engine>,
    socket: u32,
    now: u64,
) -> bool {
    &&& after.len() == before.len()
    &&& forall|i: int|
        0 <= i < after.len() ==> roused(
            links[i],
            before[i].asked(),
            (#[trigger] after[i]).asked(),
            socket,
            now,
        )
}

/// What is sent at once, followed by what driving the socket leaves.
pub open spec fn after_datagram(direct: OutputView, driven: (StateView, OutputView)) -> (
    StateView,
    OutputView,
) {
    (driven.0, direct.then_all(driven.1))
}

/// What a connection that is up is asked for when the time to set it up is over.
pub open spec fn up_asked() -> Seq<Asked> {
    seq![Asked::Handshaking { handshaking: false }]
}

/// What a connection that is not up is asked for when the time to set it up is over.
pub open spec fn overdue_asked(now: u64) -> Seq<Asked> {
    seq![
        Asked::Handshaking { handshaking: true },
        Asked::Close { now, code: 0, reason: "connect timeout".spec_bytes() },
    ]
}

/// What is left when the time to set a connection up is over. One that nobody waits for, or that is
/// up, stays as it is; another one is closed, its caller is answered, and its socket is driven.
pub open spec fn overdue(
    before: QuicService,
    id: QuicConnectionId,
    now: u64,
    after: QuicService,
    output: OutputView,
) -> bool {
    let state = before.state@;
    if !state.has_link(id) || state.link(id).connect_pending is None {
        after == before && output == OutputView::empty()
    } else {
        ||| {
            &&& after.state@ == state
            &&& output == OutputView::empty()
            &&& after.endpoints == before.endpoints
            &&& asked_one(before.engines@, after.engines@, state.link_place(id), up_asked())
        }
        ||| exists|
            engines: Seq<Engine>,
            work: Seq<Work>,
            drained: Seq<Bound>,
            deadline: Option<u64>,
        |
            {
                &&& #[trigger] asked_one(
                    before.engines@,
                    engines,
                    state.link_place(id),
                    overdue_asked(now),
                )
                &&& (after.state@, output) == after_datagram(
                    OutputView::empty().reply_to(
                        state.link(id).connect_pending,
                        AnswerView::Failed("QUIC 连接超时"@),
                    ),
                    #[trigger] driven(
                        timed_out(state, id),
                        state.link(id).endpoint_socket,
                        now,
                        before.config.write_low_water as int,
                        work,
                        drained,
                        deadline,
                    ),
                )
                &&& drive_asks(
                    timed_out(state, id),
                    engines,
                    before.endpoints@,
                    state.link(id).endpoint_socket,
                    now,
                    before.config,
                    work,
                    drained,
                    deadline,
                    after.state@,
                    after.engines@,
                    after.endpoints@,
                )
                &&& ports_driven(
                    timed_out(state, id),
                    before.endpoints@,
                    state.link(id).endpoint_socket,
                    after.state@,
                    after.endpoints@,
                )
            }
    }
}

/// With nobody waiting for a connection any more.
pub open spec fn timed_out(state: StateView, id: QuicConnectionId) -> StateView {
    state.with_link(id, LinkView { connect_pending: None, ..state.link(id) })
}

/// One connection more, or another one in the place of one, in books and
/// engine alike.
pub proof fn lemma_still_paired(
    before: State,
    engines: Seq<Engine>,
    after: State,
    now: Seq<Engine>,
    place: int,
    replaced: bool,
    engine: Engine,
)
    requires
        engines.len() == before.links@.len(),
        forall|i: int|
            0 <= i < engines.len() ==> (#[trigger] engines[i]).server()
                == before.links@[i].listener.is_some(),
        0 <= place <= engines.len(),
        replaced ==> place < engines.len(),
        now == (if replaced {
            engines.update(place, engine)
        } else {
            engines.insert(place, engine)
        }),
        after@.links == (if replaced {
            before@.links.update(place, after@.links[place])
        } else {
            before@.links.insert(place, after@.links[place])
        }),
        engine.server() == after@.links[place].listener.is_some(),
    ensures
        now.len() == after.links@.len(),
        forall|i: int|
            0 <= i < now.len() ==> (#[trigger] now[i]).server()
                == after.links@[i].listener.is_some(),
{
    assert(after@.links.len() == after.links@.len());
    assert forall|i: int| 0 <= i < now.len() implies (#[trigger] now[i]).server()
        == after.links@[i].listener.is_some() by {
        assert(after@.links[i] == after.links@[i]@);
        if i != place {
            let k = if i < place || replaced {
                i
            } else {
                i - 1
            };
            assert(now[i] == engines[k]);
            assert(before@.links[k] == before.links@[k]@);
            assert(after@.links[i] == before@.links[k]);
        }
    }
}

} // verus!
