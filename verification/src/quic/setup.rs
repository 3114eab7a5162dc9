//! Listening and connecting. Sockets are opened elsewhere: each step says what
//! is to be done next and takes what came of it.

use crate::error::Error;
use crate::quic::command::{Answer, Command, QuicClientOptions, QuicServerOptions};
use crate::quic::engine::{self, ClientSetup, Engine, Port, ServerSetup};
use crate::quic::event::QuicConnectionId;
use crate::quic::output::{DriveOutput, Pending};
use crate::quic::service::QuicService;
use crate::quic::state::{EndpointState, Listener};
use quinn_proto::{ClientConfig, ServerConfig};
#[allow(unused_imports)]
use crate::quic::{
    command::AnswerView,
    config::{QuicConfig, TransportView},
    event::text_view,
    lifecycle::{
        after_datagram, fresh_endpoint, lemma_still_paired, next_connection, next_listener, placed,
        overdue, ticked,
    },
    output::OutputView,
    perform::settled,
    engine::{handle_of, Met},
    service::{
        drive_asks, driven, ports_driven, ports_kept, question, recorded, records_of, shaken,
        with_port, Work,
    },
    state::{answers, Bound, OutcomeView, StateView},
};
use vstd::prelude::*;

verus! {

impl QuicClientOptions {
    /// The engine's settings with the transport parameters of these options,
    /// given those that hold the security part.
    pub fn proto_config(&self, config: ClientConfig) -> (result: Result<ClientSetup, Error>)
        ensures
            result.is_ok() <==> self.transport.windows_ok() && self.transport.max_idle_timeout_ms
                < 0x4000_0000_0000_0000,
            result matches Ok(setup) ==> setup.of@ == (config, self.transport.told()),
            result matches Err(error) ==> error is Config && error.text() == (
            if !self.transport.windows_ok() {
                "QUIC transport 流控/超时参数无效"@
            } else {
                "QUIC idle timeout 超出可表示范围"@
            }),
    {
        match self.transport.build() {
            Ok(transport) => Ok(engine::with_client_transport(config, transport)),
            Err(error) => Err(error),
        }
    }

    /// How long the connection may take to come up.
    pub fn timeout_ms(&self, config: &QuicConfig) -> (timeout_ms: u64)
        ensures
            timeout_ms == (match self.connect_timeout_ms {
                Some(own) => own,
                None => config.handshake_timeout_ms,
            }),
    {
        match self.connect_timeout_ms {
            Some(own) => own,
            None => config.handshake_timeout_ms,
        }
    }
}

impl QuicServerOptions {
    /// The engine's settings with the transport parameters of these options,
    /// given those that hold the security part.
    pub fn proto_config(&self, config: ServerConfig) -> (result: Result<ServerSetup, Error>)
        ensures
            result.is_ok() <==> self.transport.windows_ok() && self.transport.max_idle_timeout_ms
                < 0x4000_0000_0000_0000,
            result matches Ok(setup) ==> setup.of@ == (config, self.transport.told()),
            result matches Err(error) ==> error is Config && error.text() == (
            if !self.transport.windows_ok() {
                "QUIC transport 流控/超时参数无效"@
            } else {
                "QUIC idle timeout 超出可表示范围"@
            }),
    {
        match self.transport.build() {
            Ok(transport) => Ok(engine::with_server_transport(config, transport)),
            Err(error) => Err(error),
        }
    }
}

/// What is to be done next on the way to a connection.
#[allow(inconsistent_fields)]
#[derive(Debug)]
pub enum ConnectAction {
    /// Open a socket on the address that the options name.
    OpenBound,
    /// Open a socket that suits the peer, and set the peer.
    OpenForPeer,
    /// Set the peer of the socket.
    SetPeer { socket: u32 },
    /// Ask for the addresses of the socket.
    Describe { socket: u32 },
    /// Make the connection.
    Connect { socket: u32, local: Option<String>, peer: String },
    /// Close the socket, if there is one, and say why.
    GiveUp { socket: Option<u32>, reason: String },
}

/// Addresses of a socket.
#[derive(Debug)]
pub struct SocketAddresses {
    pub local: Option<String>,
    pub peer: Option<String>,
}

/// What came of a step on the way to a connection.
#[allow(inconsistent_fields)]
#[derive(Debug)]
pub enum ConnectProgress {
    /// A socket was opened, or why not.
    Opened(Result<u32, String>),
    /// The peer of the socket was set, or why not.
    PeerSet { socket: u32, result: Result<(), String> },
    /// The addresses of the socket, or why not.
    Described { socket: u32, result: Result<SocketAddresses, String> },
}

/// The first step: a socket on the caller's address, or one that suits the
/// peer.
pub fn connect_first(options: &QuicClientOptions) -> (action: ConnectAction)
    ensures
        action == (if options.bind is Some {
            ConnectAction::OpenBound
        } else {
            ConnectAction::OpenForPeer
        }),
{
    if options.bind.is_some() {
        ConnectAction::OpenBound
    } else {
        ConnectAction::OpenForPeer
    }
}

/// The step after one that came out like this.
pub fn connect_next(options: &QuicClientOptions, progress: ConnectProgress) -> (action:
    ConnectAction)
    ensures
        match progress {
            ConnectProgress::Opened(Ok(socket)) => action == (if options.bind is Some {
                ConnectAction::SetPeer { socket }
            } else {
                ConnectAction::Describe { socket }
            }),
            ConnectProgress::Opened(Err(reason)) => action == (ConnectAction::GiveUp {
                socket: None,
                reason,
            }),
            ConnectProgress::PeerSet { socket, result: Ok(()) } => action == (
            ConnectAction::Describe { socket }),
            ConnectProgress::PeerSet { socket, result: Err(reason) } => action == (
            ConnectAction::GiveUp { socket: Some(socket), reason }),
            ConnectProgress::Described { socket, result: Ok(addresses) } => match addresses.peer {
                Some(peer) => action == (ConnectAction::Connect {
                    socket,
                    local: addresses.local,
                    peer,
                }),
                None => action matches ConnectAction::GiveUp { socket: Some(closed), reason }
                    && closed == socket && reason@ == "QUIC UDP 端点没有对端地址"@,
            },
            ConnectProgress::Described { socket, result: Err(reason) } => action == (
            ConnectAction::GiveUp { socket: Some(socket), reason }),
        },
{
    match progress {
        ConnectProgress::Opened(Ok(socket)) => if options.bind.is_some() {
            ConnectAction::SetPeer { socket }
        } else {
            ConnectAction::Describe { socket }
        },
        ConnectProgress::Opened(Err(reason)) => ConnectAction::GiveUp { socket: None, reason },
        ConnectProgress::PeerSet { socket, result } => match result {
            Ok(()) => ConnectAction::Describe { socket },
            Err(reason) => ConnectAction::GiveUp { socket: Some(socket), reason },
        },
        ConnectProgress::Described { socket, result } => match result {
            Ok(SocketAddresses { local, peer }) => match peer {
                Some(peer) => ConnectAction::Connect { socket, local, peer },
                None => ConnectAction::GiveUp {
                    socket: Some(socket),
                    reason: "QUIC UDP 端点没有对端地址".to_owned(),
                },
            },
            Err(reason) => ConnectAction::GiveUp { socket: Some(socket), reason },
        },
    }
}

/// A request as the service takes it on.
#[derive(Debug)]
pub enum Flow {
    /// A listener is wanted: open a socket for it.
    Listen(QuicServerOptions),
    /// A connection is wanted: open a socket for it.
    Connect(QuicClientOptions),
    /// The request is settled, and this is to be sent.
    Settled(DriveOutput),
}

/// A connection that was made has so much time to come up.
#[derive(Debug, Clone, Copy, PartialEq, Eq, Structural)]
pub struct Deadline {
    pub id: QuicConnectionId,
    pub timeout_ms: u64,
}

/// The books after a refused attempt to connect, and what is sent.
pub open spec fn connect_refused(
    state: StateView,
    pending: Pending,
    socket: Option<u32>,
    reason: Seq<char>,
) -> (StateView, OutputView) {
    let output = OutputView::empty();
    let closed = match socket {
        Some(socket) => output.close(socket),
        None => output,
    };
    (state.released(), closed.reply(pending, AnswerView::Failed(reason)))
}

/// What a request that reaches the books leaves: what the request itself
/// leaves, then what driving its socket leaves.
pub open spec fn carried_out(
    service: QuicService,
    pending: Pending,
    command: Command,
    now: u64,
    outcome: OutcomeView,
    work: Seq<Work>,
    drained: Seq<Bound>,
    deadline: Option<u64>,
) -> (StateView, OutputView) {
    let settled = service.state@.settle(
        service.config,
        pending,
        command,
        outcome,
        OutputView::empty(),
    );
    match settled.socket {
        None => (settled.state, settled.output),
        Some(socket) => after_datagram(
            settled.output,
            driven(
                settled.state,
                socket,
                now,
                service.config.write_low_water as int,
                work,
                drained,
                deadline,
            ),
        ),
    }
}

/// What a request that reaches the books asks of the engine: what it needs itself, and what
/// driving its socket needs.
pub open spec fn asked_out(
    before: QuicService,
    pending: Pending,
    command: Command,
    now: u64,
    outcome: OutcomeView,
    work: Seq<Work>,
    drained: Seq<Bound>,
    deadline: Option<u64>,
    after: QuicService,
) -> bool {
    let settled = before.state@.settle(
        before.config,
        pending,
        command,
        outcome,
        OutputView::empty(),
    );
    let consult = before.state@.consult(before.config, pending, command);
    let records = recorded(before.records(), question(consult, command, now, outcome));
    let ports = ports_kept(before.endpoints@, settled.dropped);
    match settled.socket {
        None => after.records() == records && after.endpoints@ == ports,
        Some(socket) => exists|engines: Seq<Engine>|
            {
                &&& records_of(engines) == records
                &&& #[trigger] drive_asks(
                    settled.state,
                    engines,
                    ports,
                    socket,
                    now,
                    before.config,
                    work,
                    drained,
                    deadline,
                    after.state@,
                    after.engines@,
                    after.endpoints@,
                )
                &&& ports_driven(settled.state, ports, socket, after.state@, after.endpoints@)
            },
    }
}

/// What an endpoint of its own was asked for: the connection, and nothing else.
pub open spec fn asked_for_one(
    port: Port,
    options: QuicClientOptions,
    config: (ClientConfig, TransportView),
    peer: Seq<char>,
    now: u64,
    result: Result<(usize, Engine), String>,
) -> bool {
    &&& port.server() is None
    &&& port.met() == seq![
        Met::Connect {
            now,
            config,
            peer,
            server_name: options.server_name@,
            handle: handle_of(result),
        },
    ]
    &&& result matches Ok((handle, engine)) ==> !engine.server() && engine.asked().len() == 0
}

/// What comes of a connection that the engine was asked for. One that it refused is given up.
/// Else the connection stands among the others and its endpoint has the socket, and the socket is
/// driven.
pub open spec fn connect_went(
    before: QuicService,
    pending: Pending,
    options: QuicClientOptions,
    result: Result<(usize, Engine), String>,
    endpoint: Port,
    socket: u32,
    local: Option<Seq<char>>,
    now: u64,
    after: QuicService,
    output: OutputView,
    limit: Option<Deadline>,
) -> bool {
    let id = next_connection(before.state@.next_connection);
    match result {
        Err(reason) => {
            &&& limit is None
            &&& (after.state@, output) == connect_refused(
                before.state@,
                pending,
                Some(socket),
                reason@,
            )
            &&& after.engines == before.engines
            &&& after.endpoints == before.endpoints
        },
        Ok((handle, engine)) => {
            let state = before.state@.released().with_connected(pending, socket, local, handle);
            let engines = placed(before.state@.links, id, before.engines@, engine);
            let ports = with_port(before.state@, before.endpoints@, socket, endpoint);
            &&& limit == Some(
                Deadline {
                    id,
                    timeout_ms: match options.connect_timeout_ms {
                        Some(own) => own,
                        None => before.config.handshake_timeout_ms,
                    },
                },
            )
            &&& exists|work: Seq<Work>, drained: Seq<Bound>, next: Option<u64>|
                {
                    &&& (after.state@, output) == #[trigger] driven(
                        state,
                        socket,
                        now,
                        before.config.write_low_water as int,
                        work,
                        drained,
                        next,
                    )
                    &&& drive_asks(
                        state,
                        engines,
                        ports,
                        socket,
                        now,
                        before.config,
                        work,
                        drained,
                        next,
                        after.state@,
                        after.engines@,
                        after.endpoints@,
                    )
                    &&& ports_driven(state, ports, socket, after.state@, after.endpoints@)
                }
        },
    }
}

impl QuicService {
    /// Takes a request on: one for a socket is handed back to have it opened,
    /// any other is settled.
    pub fn on_command(&mut self, pending: Pending, command: Command, now: u64) -> (flow: Flow)
        requires
            old(self).wf(),
            old(self).state@.usable(old(self).config, pending, command),
            old(self).state@.countable(old(self).config, pending, command),
        ensures
            final(self).wf(),
            final(self).config == old(self).config,
            final(self).base == old(self).base,
            match command {
                Command::Listen(options) => flow == Flow::Listen(options) && *final(self) == *old(
                    self),
                Command::Connect(options) => flow == Flow::Connect(options) && *final(self) == *old(
                    self),
                Command::Tick { socket, generation } => flow matches Flow::Settled(output) && ticked(
                    *old(self),
                    socket,
                    generation,
                    now,
                    *final(self),
                    output@,
                ),
                Command::ConnectTimeout(id) => flow matches Flow::Settled(output) && overdue(
                    *old(self),
                    id,
                    now,
                    *final(self),
                    output@,
                ),
                _ => flow matches Flow::Settled(output) && exists|
                    outcome: OutcomeView,
                    work: Seq<Work>,
                    drained: Seq<Bound>,
                    deadline: Option<u64>,
                |
                    (final(self).state@, output@) == #[trigger] carried_out(
                        *old(self),
                        pending,
                        command,
                        now,
                        outcome,
                        work,
                        drained,
                        deadline,
                    ) && answers(
                        old(self).state@.consult(old(self).config, pending, command),
                        command,
                        old(self).state@.links.len() as int,
                        outcome,
                    ) && asked_out(
                        *old(self),
                        pending,
                        command,
                        now,
                        outcome,
                        work,
                        drained,
                        deadline,
                        *final(self),
                    ),
            },
    {
        let ghost start = *self;
        match command {
            Command::Listen(options) => Flow::Listen(options),
            Command::Connect(options) => Flow::Connect(options),
            Command::Tick { socket, generation } => Flow::Settled(
                self.tick(socket, generation, now),
            ),
            Command::ConnectTimeout(id) => Flow::Settled(self.connect_timeout(id, now)),
            other => {
                let mut output = DriveOutput::default();
                let socket = self.perform(pending, other, now, &mut output);
                let ghost outcome = choose|outcome: OutcomeView|
                    {
                        let expected = #[trigger] start.state@.settle(
                            start.config,
                            pending,
                            command,
                            outcome,
                            OutputView::empty(),
                        );
                        &&& answers(
                            start.state@.consult(start.config, pending, command),
                            command,
                            start.state@.links.len() as int,
                            outcome,
                        )
                        &&& self.state@ == expected.state
                        &&& output@ == expected.output
                        &&& socket == expected.socket
                        &&& self.endpoints@ == ports_kept(start.endpoints@, expected.dropped)
                        &&& self.records() == recorded(
                            start.records(),
                            question(
                                start.state@.consult(start.config, pending, command),
                                command,
                                now,
                                outcome,
                            ),
                        )
                    };
                if let Some(socket) = socket {
                    let ghost middle = self.state@;
                    let ghost engines = self.engines@;
                    let ghost ports = self.endpoints@;
                    let ghost sent = output@;
                    let rest = self.drive(socket, now);
                    output.extend(rest);
                    proof {
                        let (work, drained, deadline) = choose|
                            work: Seq<Work>,
                            drained: Seq<Bound>,
                            deadline: Option<u64>,
                        |
                            (self.state@, rest@) == #[trigger] driven(
                                middle,
                                socket,
                                now,
                                start.config.write_low_water as int,
                                work,
                                drained,
                                deadline,
                            ) && drive_asks(
                                middle,
                                engines,
                                ports,
                                socket,
                                now,
                                start.config,
                                work,
                                drained,
                                deadline,
                                self.state@,
                                self.engines@,
                                self.endpoints@,
                            );
                        assert(drive_asks(
                            middle,
                            engines,
                            ports,
                            socket,
                            now,
                            start.config,
                            work,
                            drained,
                            deadline,
                            self.state@,
                            self.engines@,
                            self.endpoints@,
                        ));
                        assert((self.state@, output@) == carried_out(
                            start,
                            pending,
                            command,
                            now,
                            outcome,
                            work,
                            drained,
                            deadline,
                        ));
                    }
                } else {
                    assert((self.state@, output@) == carried_out(
                        start,
                        pending,
                        command,
                        now,
                        outcome,
                        Seq::empty(),
                        Seq::empty(),
                        None,
                    ));
                }
                Flow::Settled(output)
            },
        }
    }

    /// A socket for a listener is open: it becomes an endpoint, unless it is
    /// bound to no address in particular.
    pub fn listen_bound(
        &mut self,
        pending: Pending,
        socket: u32,
        local: Option<String>,
        wildcard: bool,
        server: ServerSetup,
    ) -> (output: DriveOutput)
        requires
            old(self).wf(),
        ensures
            final(self).wf(),
            final(self).config == old(self).config,
            final(self).base == old(self).base,
            wildcard ==> final(self).state@ == old(self).state@ && output@
                == OutputView::empty().close(socket).reply(
                pending,
                AnswerView::Failed(
                    "QUIC listener 首版必须绑定明确 IP，不能使用 wildcard 地址"@,
                ),
            ),
            !wildcard ==> ({
                let id = next_listener(old(self).state@.next_listener);
                &&& final(self).state@ == (StateView {
                    next_listener: id.0,
                    ..old(self).state@
                }).with_endpoint(
                    fresh_endpoint(
                        socket,
                        text_view(local),
                        Some(Listener { id, owner: pending.source }),
                        Seq::empty(),
                    ),
                )
                &&& output@ == OutputView::empty().reply(pending, AnswerView::Listener(id))
            }),
            final(self).engines == old(self).engines,
            wildcard ==> final(self).endpoints == old(self).endpoints,
            !wildcard ==> exists|port: Port|
                {
                    &&& final(self).endpoints@ == #[trigger] with_port(
                        old(self).state@,
                        old(self).endpoints@,
                        socket,
                        port,
                    )
                    &&& port.server() == Some(server.of@)
                    &&& port.met().len() == 0
                },
    {
        let mut output = DriveOutput::default();
        if wildcard {
            output.close(socket);
            output.reply(
                pending,
                Answer::Failed(
                    "QUIC listener 首版必须绑定明确 IP，不能使用 wildcard 地址".to_owned(),
                ),
            );
            return output;
        }
        let ghost before = self.state;
        let id = self.state.listener_id();
        let endpoint = EndpointState {
            socket,
            local,
            listener: Some(Listener { id, owner: pending.source }),
            connections: Vec::new(),
            timer_generation: 0,
            timer_deadline: None,
        };
        proof {
            assert(endpoint@ =~= fresh_endpoint(
                socket,
                text_view(local),
                Some(Listener { id, owner: pending.source }),
                Seq::empty(),
            ));
            self.state@.lemma_same_sockets(before@);
        }
        let ghost numbered = self.state;
        let replaced = self.state.put_endpoint(endpoint);
        proof {
            lemma_links_kept(before, self.state, self.engines@);
        }
        let port = engine::endpoint(Some(server));
        let ghost made = port;
        assert(numbered@.endpoint_place(socket) == before@.endpoint_place(socket));
        match replaced {
            Some(place) => {
                self.endpoints.set(place, port);
            },
            None => {
                self.endpoints.push(port);
            },
        }
        assert(self.endpoints@ == with_port(before@, old(self).endpoints@, socket, made));
        output.reply(pending, Answer::Listener(id));
        output
    }

    /// A connection is wanted: its settings are made and a place is kept for
    /// it, or the caller is told why not.
    pub fn connect_begin(&mut self, options: &QuicClientOptions, config: ClientConfig) -> (result:
        Result<ClientSetup, String>)
        requires
            old(self).wf(),
        ensures
            final(self).wf(),
            final(self).config == old(self).config,
            final(self).base == old(self).base,
            final(self).endpoints == old(self).endpoints,
            !options.transport.windows_ok() ==> (result matches Err(reason) && reason@
                == "QUIC transport 流控/超时参数无效"@),
            options.transport.windows_ok() && options.transport.max_idle_timeout_ms
                >= 0x4000_0000_0000_0000 ==> (result matches Err(reason) && reason@
                == "QUIC idle timeout 超出可表示范围"@),
            !options.transport.windows_ok() || options.transport.max_idle_timeout_ms
                >= 0x4000_0000_0000_0000 ==> final(self).engines == old(self).engines,
            options.transport.windows_ok() && options.transport.max_idle_timeout_ms
                < 0x4000_0000_0000_0000 ==> exists|handshaking: int|
                #[trigger] shaken(old(self).engines@, final(self).engines@, handshaking) && if old(
                    self).state@.has_capacity(old(self).config, handshaking) {
                    result is Ok && final(self).state@ == (StateView {
                        reserved_connections: (old(self).state.reserved_connections + 1) as usize,
                        reserved_handshakes: (old(self).state.reserved_handshakes + 1) as usize,
                        ..old(self).state@
                    })
                } else {
                    result matches Err(reason) && reason@ == "QUIC 连接/握手容量已满"@
                        && final(self).state@ == old(self).state@
                },
            result is Err ==> final(self).state@ == old(self).state@,
            result matches Ok(setup) ==> setup.of@ == (config, options.transport.told()),
    {
        let setup = match options.proto_config(config) {
            Err(error) => {
                return Err(error.message());
            },
            Ok(setup) => setup,
        };
        let handshaking: usize = self.handshake_count();
        let limits = self.config;
        let ghost before = self.state;
        let room = self.state.reserve_connect(&limits, handshaking);
        proof {
            assert(before@.has_capacity(limits, handshaking as int) == room);
            lemma_links_kept(before, self.state, self.engines@);
            self.state@.lemma_same_sockets(before@);
        }
        if !room {
            return Err("QUIC 连接/握手容量已满".to_owned());
        }
        Ok(setup)
    }

    /// A connection cannot be made: the place kept for it is given back, its
    /// socket is closed and the caller is told why.
    pub fn connect_failed(&mut self, pending: Pending, socket: Option<u32>, reason: String) -> (
    output: DriveOutput)
        requires
            old(self).wf(),
        ensures
            final(self).wf(),
            final(self).config == old(self).config,
            final(self).base == old(self).base,
            (final(self).state@, output@) == connect_refused(
                old(self).state@,
                pending,
                socket,
                reason@,
            ),
            final(self).engines == old(self).engines,
            final(self).endpoints == old(self).endpoints,
    {
        let ghost before = self.state;
        self.state.release_connect();
        proof {
            lemma_links_kept(before, self.state, self.engines@);
            self.state@.lemma_same_sockets(before@);
        }
        let mut output = DriveOutput::default();
        if let Some(socket) = socket {
            output.close(socket);
        }
        output.reply(pending, Answer::Failed(reason));
        output
    }

    /// Makes a connection on a socket whose peer is set, and drives the
    /// socket. The time that the connection has to come up is returned, or
    /// nothing where the engine refused it.
    pub fn connect_ready(
        &mut self,
        pending: Pending,
        options: &QuicClientOptions,
        setup: ClientSetup,
        socket: u32,
        local: Option<String>,
        peer: &str,
        now: u64,
    ) -> (result: (DriveOutput, Option<Deadline>))
        requires
            old(self).wf(),
        ensures
            final(self).wf(),
            final(self).config == old(self).config,
            final(self).base == old(self).base,
            exists|endpoint: Port, made: Result<(usize, Engine), String>| #[trigger]
                asked_for_one(endpoint, *options, setup.of@, peer@, now, made) && connect_went(
                    *old(self),
                    pending,
                    *options,
                    made,
                    endpoint,
                    socket,
                    text_view(local),
                    now,
                    *final(self),
                    result.0@,
                    result.1,
                ),
    {
        let ghost of = setup.of@;
        let mut endpoint = engine::endpoint(None);
        let made = engine::connect(
            &mut endpoint,
            &self.base,
            now,
            setup,
            peer,
            options.server_name.as_str(),
        );
        proof {
            let asked = Met::Connect {
                now,
                config: of,
                peer: peer@,
                server_name: options.server_name@,
                handle: handle_of(made),
            };
            assert(endpoint.met() =~= seq![asked]);
            assert(asked_for_one(endpoint, *options, of, peer@, now, made));
        }
        self.connect_made(pending, options, made, endpoint, socket, local, now)
    }

    /// What the engine said of a connection that it was asked for is seen to,
    /// and where the connection was made, the socket is driven. The time that
    /// the connection has to come up is returned, or nothing where the engine
    /// refused it.
    pub fn connect_made(
        &mut self,
        pending: Pending,
        options: &QuicClientOptions,
        made: Result<(usize, Engine), String>,
        endpoint: Port,
        socket: u32,
        local: Option<String>,
        now: u64,
    ) -> (result: (DriveOutput, Option<Deadline>))
        requires
            old(self).wf(),
            endpoint.wf(),
            made matches Ok((handle, engine)) ==> !engine.server(),
        ensures
            final(self).wf(),
            final(self).config == old(self).config,
            final(self).base == old(self).base,
            connect_went(
                *old(self),
                pending,
                *options,
                made,
                endpoint,
                socket,
                text_view(local),
                now,
                *final(self),
                result.0@,
                result.1,
            ),
    {
        match made {
            Err(reason) => {
                let output = self.connect_failed(pending, Some(socket), reason);
                (output, None)
            },
            Ok((handle, engine)) => {
                let ghost before = self.state;
                self.state.release_connect();
                proof {
                    lemma_links_kept(before, self.state, self.engines@);
                    self.state@.lemma_same_sockets(before@);
                }
                let ghost released = self.state;
                assert(released@ == before@.released());
                let entered = self.state.enter_connected(pending, socket, local, handle);
                let ghost port = endpoint;
                let ghost own = engine;
                if entered.3 {
                    self.engines.set(entered.2, engine);
                } else {
                    self.engines.insert(entered.2, engine);
                }
                match entered.1 {
                    Some(place) => {
                        self.endpoints.set(place, endpoint);
                    },
                    None => {
                        self.endpoints.push(endpoint);
                    },
                }
                proof {
                    lemma_still_paired(
                        released,
                        old(self).engines@,
                        self.state,
                        self.engines@,
                        entered.2 as int,
                        entered.3,
                        engine,
                    );
                }
                let timeout_ms: u64 = options.timeout_ms(&self.config);
                proof {
                    assert(self.engines@ == placed(
                        before@.links,
                        entered.0,
                        old(self).engines@,
                        own,
                    ));
                    assert(released@.endpoint_place(socket) == before@.endpoint_place(socket));
                    assert(self.endpoints@ == with_port(before@, old(self).endpoints@, socket, port));
                }
                let output = self.drive(socket, now);
                (output, Some(Deadline { id: entered.0, timeout_ms }))
            },
        }
    }
}

/// Books whose connections say the same are paired with the same engine.
proof fn lemma_links_kept(
    before: crate::quic::state::State,
    after: crate::quic::state::State,
    engines: Seq<crate::quic::engine::Engine>,
)
    requires
        engines.len() == before.links@.len(),
        forall|i: int|
            0 <= i < engines.len() ==> (#[trigger] engines[i]).server()
                == before.links@[i].listener.is_some(),
        after@.links == before@.links,
    ensures
        engines.len() == after.links@.len(),
        forall|i: int|
            0 <= i < engines.len() ==> (#[trigger] engines[i]).server()
                == after.links@[i].listener.is_some(),
        after@.endpoints.len() == after.endpoints@.len(),
        before@.endpoints.len() == before.endpoints@.len(),
{
    assert(after@.links.len() == after.links@.len());
    assert forall|i: int| 0 <= i < engines.len() implies (#[trigger] engines[i]).server()
        == after.links@[i].listener.is_some() by {
        assert(after@.links[i] == after.links@[i]@);
        assert(before@.links[i] == before.links@[i]@);
    }
}

} // verus!
