//! The protocol engine: calls into `quinn_proto`, on plain values.
//!
//! Times are nanoseconds since a base that the service keeps, addresses are
//! written as text, streams and error codes are numbers. What the engine
//! decides is open to the code above it: what a connection is asked for, and
//! what it answers, is kept in a record, and that is what is stated of the
//! calls.

use crate::quic::command::VARINT_BOUND;
use crate::quic::config::Transport;
#[allow(unused_imports)]
use crate::quic::config::TransportView;
use crate::quic::outcome::{CallOutcome, ProtoInfo, ReadOutcome, WriteOutcome};
#[allow(unused_imports)]
use crate::quic::outcome::{CallOutcomeView, ProtoInfoView, ReadOutcomeView, WriteOutcomeView};
use bytes::{Bytes, BytesMut};
use quinn_proto::crypto::rustls::HandshakeData;
use quinn_proto::{
    ClientConfig, Connection, ConnectionError, ConnectionEvent, ConnectionHandle, DatagramEvent,
    Dir, Endpoint, EndpointConfig, EndpointEvent, Event, Incoming, ReadError, ServerConfig,
    StreamEvent, StreamId, VarInt, WriteError,
};
use std::sync::Arc;
use std::time::{Duration, Instant};
#[allow(unused_imports)]
use crate::quic::{
    event::bytes_view,
    link::{receives, sends},
};
use vstd::prelude::*;

verus! {

/// An endpoint of the engine: one UDP socket's worth of connections.
#[verifier::external_type_specification]
#[verifier::external_body]
pub struct ExEndpoint(Endpoint);

/// A connection of the engine.
#[verifier::external_type_specification]
#[verifier::external_body]
pub struct ExConnection(Connection);

/// How a client connects.
#[verifier::external_type_specification]
#[verifier::external_body]
pub struct ExClientConfig(ClientConfig);

/// How a server accepts.
#[verifier::external_type_specification]
#[verifier::external_body]
pub struct ExServerConfig(ServerConfig);

/// What an endpoint has for one of its connections.
#[verifier::external_type_specification]
#[verifier::external_body]
pub struct ExConnectionEvent(ConnectionEvent);

/// What a connection has for its endpoint.
#[verifier::external_type_specification]
#[verifier::external_body]
pub struct ExEndpointEvent(EndpointEvent);

/// A connection attempt that was neither accepted nor refused yet.
#[verifier::external_type_specification]
#[verifier::external_body]
pub struct ExIncoming(Incoming);

/// What a connection has to say of a stream.
#[verifier::external_type_specification]
#[verifier::external_body]
pub struct ExStreamEvent(StreamEvent);

/// Something that a connection was asked for, and what it answered.
#[verifier::ext_equal]
#[allow(inconsistent_fields)]
pub enum Asked {
    Open { bidirectional: bool, stream: Option<u64> },
    Accept { bidirectional: bool, stream: Option<u64> },
    Read { stream: u64, limit: usize, outcome: ReadOutcomeView },
    Write { stream: u64, data: Seq<u8>, outcome: WriteOutcomeView },
    Finish { stream: u64, outcome: CallOutcomeView },
    Reset { stream: u64, code: u64, outcome: CallOutcomeView },
    Stop { stream: u64, code: u64, outcome: CallOutcomeView },
    Send { data: Seq<u8>, outcome: CallOutcomeView },
    Receive { data: Option<Seq<u8>> },
    Close { now: u64, code: u64, reason: Seq<u8> },
    Poll { signal: Option<Signal> },
    Alpn { alpn: Option<Seq<u8>> },
    Peer { peer: Seq<char> },
    Report { event: Option<EndpointEvent> },
    Told { event: ConnectionEvent },
    Transmit { now: u64, sent: Option<(Seq<char>, Seq<u8>)> },
    Drained { drained: bool },
    Handshaking { handshaking: bool },
    Timeout { at: Option<u64> },
    Wake { now: u64 },
    Info { info: ProtoInfoView },
}

/// Whether the other side made a connection.
pub uninterp spec fn serves(connection: Connection) -> bool;

/// `Connection::side`: whether this is the server's side, which rests on the connection alone.
#[verifier::external_body]
fn serving(connection: &Connection) -> (server: bool)
    ensures
        server == serves(*connection),
{
    connection.side().is_server()
}

/// A connection of the engine.
pub struct Engine {
    connection: Connection,
    /// What it was asked for so far, and what it answered.
    asked: Ghost<Seq<Asked>>,
}

impl Engine {
    /// The other side made the connection.
    pub closed spec fn server(self) -> bool {
        serves(self.connection)
    }

    /// What it was asked for so far, and what it answered.
    pub closed spec fn asked(self) -> Seq<Asked> {
        self.asked@
    }

    /// Whether the other side made the connection.
    pub(crate) fn is_server(&self) -> (server: bool)
        ensures
            server == self.server(),
    {
        serving(&self.connection)
    }
}

/// Something that an endpoint was asked for, and what it answered.
#[verifier::ext_equal]
#[allow(inconsistent_fields)]
pub enum Met {
    Connect {
        now: u64,
        config: (ClientConfig, TransportView),
        peer: Seq<char>,
        server_name: Seq<char>,
        handle: Option<usize>,
    },
    Receive { now: u64, from: Seq<char>, data: Seq<u8>, arrival: Arrival },
    Accept { now: u64, incoming: Incoming, handle: Option<usize>, answer: Option<(Seq<char>, Seq<u8>)> },
    Refuse { incoming: Incoming, answer: Option<(Seq<char>, Seq<u8>)> },
    Event { handle: usize, event: EndpointEvent, answer: Option<ConnectionEvent> },
}

/// The engine's settings for a connection that this side makes.
pub struct ClientSetup {
    pub config: ClientConfig,
    /// The settings with the security part, and the transport parameters that were put in.
    pub of: Ghost<(ClientConfig, TransportView)>,
}

/// The engine's settings for the connections that a listener takes.
pub struct ServerSetup {
    pub config: ServerConfig,
    /// The settings with the security part, and the transport parameters that were put in.
    pub of: Ghost<(ServerConfig, TransportView)>,
}

/// An endpoint of the engine.
pub struct Port {
    endpoint: Endpoint,
    /// The numbers of the connections that it knows.
    known: Vec<usize>,
    /// How it accepts connections, where it does.
    server: Ghost<Option<(ServerConfig, TransportView)>>,
    /// What it was asked for so far, and what it answered.
    met: Ghost<Seq<Met>>,
}

/// Whether what a connection has for its endpoint is that nothing is left of it.
pub uninterp spec fn drains(event: EndpointEvent) -> bool;

/// `EndpointEvent::is_drained`: whether the event says that nothing is left of its connection,
/// which rests on the event alone.
#[verifier::external_body]
fn event_drains(event: &EndpointEvent) -> (drained: bool)
    ensures
        drained == drains(*event),
{
    event.is_drained()
}

/// An endpoint knows a connection by a number from when it gives the number out until it hears
/// that nothing is left of the connection.
pub open spec fn knows(met: Seq<Met>, handle: usize) -> bool
    decreases met.len(),
{
    if met.len() == 0 {
        false
    } else {
        let earlier = knows(met.drop_last(), handle);
        match met.last() {
            Met::Connect { now, config, peer, server_name, handle: given } => earlier || given
                == Some(handle),
            Met::Accept { now, incoming, handle: given, answer } => earlier || given == Some(
                handle,
            ),
            Met::Event { handle: of, event, answer } => earlier && !(of == handle && drains(event)),
            _ => earlier,
        }
    }
}

/// Somebody wants to make a connection, and the endpoint was asked for nothing since it said so.
pub open spec fn attempted(met: Seq<Met>, incoming: Incoming) -> bool {
    met.len() > 0 && (met.last() matches Met::Receive { now, from, data, arrival } && arrival
        == Arrival::Attempt(incoming))
}

impl Port {
    /// How it accepts connections, where it does.
    pub closed spec fn server(self) -> Option<(ServerConfig, TransportView)> {
        self.server@
    }

    /// What it was asked for so far, and what it answered.
    pub closed spec fn met(self) -> Seq<Met> {
        self.met@
    }

    /// The numbers are those of the connections that the endpoint knows.
    pub closed spec fn wf(&self) -> bool {
        forall|handle: usize| #[trigger]
            self.known@.contains(handle) <==> knows(self.met@, handle)
    }

    /// Takes note of a number that the endpoint gave out.
    fn learn(&mut self, handle: usize)
        ensures
            final(self).endpoint == old(self).endpoint,
            final(self).server == old(self).server,
            final(self).met == old(self).met,
            final(self).known@ == old(self).known@.push(handle),
    {
        self.known.push(handle);
    }

    /// Whether the endpoint knows a connection by this number.
    fn is_known(&self, handle: usize) -> (known: bool)
        ensures
            known == self.known@.contains(handle),
    {
        let mut i: usize = 0;
        while i < self.known.len()
            invariant
                i <= self.known@.len(),
                forall|k: int| 0 <= k < i ==> self.known@[k] != handle,
            decreases self.known@.len() - i,
        {
            if self.known[i] == handle {
                return true;
            }
            i += 1;
        }
        false
    }

    /// Takes note that the endpoint knows no connection by this number any more.
    fn unlearn(&mut self, handle: usize)
        ensures
            final(self).endpoint == old(self).endpoint,
            final(self).server == old(self).server,
            final(self).met == old(self).met,
            forall|other: usize| #[trigger]
                final(self).known@.contains(other) <==> old(self).known@.contains(other) && other
                    != handle,
    {
        let mut left: Vec<usize> = Vec::new();
        let mut i: usize = 0;
        while i < self.known.len()
            invariant
                i <= self.known@.len(),
                forall|other: usize| #[trigger]
                    left@.contains(other) <==> self.known@.take(i as int).contains(other) && other
                        != handle,
            decreases self.known@.len() - i,
        {
            let number: usize = self.known[i];
            let ghost earlier = left@;
            if number != handle {
                left.push(number);
            }
            proof {
                let before = self.known@.take(i as int);
                let now = self.known@.take(i + 1);
                assert(now =~= before.push(number));
                assert forall|other: usize| #[trigger] left@.contains(other) <==> now.contains(
                    other,
                ) && other != handle by {
                    if before.contains(other) {
                        let k = before.index_of(other);
                        assert(now[k] == other);
                    }
                    if now.contains(other) {
                        let k = now.index_of(other);
                        assert(k < before.len() ==> before[k] == other);
                    }
                    if earlier.contains(other) {
                        let k = earlier.index_of(other);
                        assert(left@[k] == other);
                    }
                    if left@.contains(other) {
                        let k = left@.index_of(other);
                        assert(k < earlier.len() ==> earlier[k] == other);
                    }
                    if number != handle {
                        assert(left@[earlier.len() as int] == number);
                    }
                    assert(now[i as int] == number);
                }
            }
            i += 1;
        }
        assert(self.known@.take(i as int) =~= self.known@);
        self.known = left;
    }
}

/// A datagram to send: where to, and its bytes.
#[derive(Debug)]
pub struct Datagram {
    pub destination: String,
    pub data: Vec<u8>,
}

/// Where a datagram goes and what it holds, if there is one.
pub open spec fn datagram_view(datagram: Option<Datagram>) -> Option<(Seq<char>, Seq<u8>)> {
    match datagram {
        Some(datagram) => Some((datagram.destination@, datagram.data@)),
        None => None,
    }
}

/// What a datagram that came in is.
pub enum Arrival {
    Nothing,
    Event { handle: usize, event: ConnectionEvent },
    Attempt(Incoming),
    Response(Datagram),
}

/// What a connection tells the application.
pub enum Signal {
    HandshakeDataReady,
    Connected,
    Lost { reason: String, application: Option<(u64, Vec<u8>)> },
    Stream(StreamEvent),
    DatagramReceived,
    DatagramsUnblocked,
}

/// What a connection says of a stream.
#[derive(Debug, Clone, Copy, PartialEq, Eq, Structural)]
pub enum StreamSignal {
    Opened { bidirectional: bool },
    Readable { stream: u64 },
    Writable { stream: u64 },
    Finished { stream: u64 },
    Stopped { stream: u64, error_code: u64 },
    Available,
}

/// `Instant::now`: the base that times are counted from. Nothing is stated of
/// it.
#[verifier::external_body]
pub(crate) fn time_base() -> (base: Instant) {
    Instant::now()
}

/// `Instant::elapsed` in nanoseconds. Nothing is stated of it.
#[verifier::external_body]
pub(crate) fn nanos_since(base: &Instant) -> (nanos: u64) {
    base.elapsed().as_nanos() as u64
}

/// `ServerConfig::transport_config`: the transport parameters are replaced.
/// The engine's value is opaque: what it is made of is recorded beside it.
#[verifier::external_body]
pub(crate) fn with_server_transport(config: ServerConfig, transport: Transport) -> (setup:
    ServerSetup)
    ensures
        setup.of@ == (config, transport.of@),
{
    let of = Ghost((config, transport.of@));
    let mut config = config;
    config.transport_config(Arc::new(transport.config));
    ServerSetup { config, of }
}

/// `ClientConfig::transport_config`: the transport parameters are replaced.
/// The engine's value is opaque: what it is made of is recorded beside it.
#[verifier::external_body]
pub(crate) fn with_client_transport(config: ClientConfig, transport: Transport) -> (setup:
    ClientSetup)
    ensures
        setup.of@ == (config, transport.of@),
{
    let of = Ghost((config, transport.of@));
    let mut config = config;
    config.transport_config(Arc::new(transport.config));
    ClientSetup { config, of }
}

/// What a listener's settings are made of, where there are some.
pub open spec fn setup_of(server: Option<ServerSetup>) -> Option<(ServerConfig, TransportView)> {
    match server {
        Some(server) => Some(server.of@),
        None => None,
    }
}

/// `Endpoint::new` with the usual endpoint settings, path MTU detection
/// allowed, and a seed of its own. It was asked for nothing yet.
#[verifier::external_body]
fn new_endpoint(server: Option<ServerSetup>) -> (port: Port)
    ensures
        port.server() == setup_of(server),
        port.met().len() == 0,
        port.known@.len() == 0,
{
    let of = Ghost(setup_of(server));
    let server = server.map(|server| Arc::new(server.config));
    let config = Arc::new(EndpointConfig::default());
    let endpoint = Endpoint::new(config, server, true, None);
    Port { endpoint, known: Vec::new(), server: of, met: Ghost(Seq::empty()) }
}

/// An endpoint that was asked for nothing yet.
pub(crate) fn endpoint(server: Option<ServerSetup>) -> (port: Port)
    ensures
        port.wf(),
        port.server() == setup_of(server),
        port.met().len() == 0,
{
    new_endpoint(server)
}

/// The number of a connection that may not have been made.
pub open spec fn handle_of<E>(result: Result<(usize, Engine), E>) -> Option<usize> {
    match result {
        Ok((handle, _)) => Some(handle),
        Err(_) => None,
    }
}

/// `Endpoint::connect`: a connection that this side makes, and the number the
/// endpoint knows it by, or the engine's words for what is wrong. An address
/// that is none is reported in the same way.
#[verifier::external_body]
fn endpoint_connect(
    port: &mut Port,
    base: &Instant,
    now: u64,
    setup: ClientSetup,
    peer: &str,
    server_name: &str,
) -> (result: Result<(usize, Engine), String>)
    ensures
        result matches Ok((handle, engine)) ==> !engine.server() && engine.asked().len() == 0,
        final(port).server() == old(port).server(),
        final(port).known == old(port).known,
        final(port).met() == old(port).met().push(
            Met::Connect {
                now,
                config: setup.of@,
                peer: peer@,
                server_name: server_name@,
                handle: handle_of(result),
            },
        ),
{
    let Ok(peer) = peer.parse() else { return Err("invalid socket address".to_owned()) };
    let now = *base + Duration::from_nanos(now);
    match port.endpoint.connect(now, setup.config, peer, server_name) {
        Ok((handle, connection)) => Ok(
            (handle.0, Engine { connection, asked: Ghost(Seq::empty()) }),
        ),
        Err(error) => Err(error.to_string()),
    }
}

/// A connection that this side makes, and the number the endpoint knows it by, or the engine's
/// words for what is wrong.
pub(crate) fn connect(
    port: &mut Port,
    base: &Instant,
    now: u64,
    setup: ClientSetup,
    peer: &str,
    server_name: &str,
) -> (result: Result<(usize, Engine), String>)
    requires
        old(port).wf(),
    ensures
        final(port).wf(),
        result matches Ok((handle, engine)) ==> !engine.server() && engine.asked().len() == 0,
        final(port).server() == old(port).server(),
        final(port).met() == old(port).met().push(
            Met::Connect {
                now,
                config: setup.of@,
                peer: peer@,
                server_name: server_name@,
                handle: handle_of(result),
            },
        ),
{
    let result = endpoint_connect(port, base, now, setup, peer, server_name);
    let ghost known = port.known@;
    assert(port.met().drop_last() =~= old(port).met());
    if let Ok((handle, _)) = &result {
        port.learn(*handle);
        proof {
            lemma_learned(known, *handle);
        }
    }
    result
}

/// What is neither a connection made nor one gone leaves the numbers as they are.
proof fn lemma_unheard(met: Seq<Met>, entry: Met)
    requires
        entry is Receive || entry is Refuse,
    ensures
        forall|handle: usize| #[trigger] knows(met.push(entry), handle) == knows(met, handle),
{
    assert(met.push(entry).drop_last() =~= met);
}

/// One number more.
proof fn lemma_learned(known: Seq<usize>, handle: usize)
    ensures
        forall|other: usize| #[trigger]
            known.push(handle).contains(other) <==> known.contains(other) || other == handle,
{
    assert forall|other: usize| #[trigger] known.push(handle).contains(other) <==> known.contains(
        other,
    ) || other == handle by {
        if known.contains(other) {
            let k = known.index_of(other);
            assert(known.push(handle)[k] == other);
        }
        if known.push(handle).contains(other) {
            let k = known.push(handle).index_of(other);
            assert(k < known.len() ==> known[k] == other);
        }
        assert(known.push(handle)[known.len() as int] == handle);
    }
}

/// `Endpoint::handle`: what a datagram that came in is. One from an address
/// that is none is nothing.
#[verifier::external_body]
fn endpoint_receive(
    port: &mut Port,
    base: &Instant,
    now: u64,
    from: &str,
    data: &Vec<u8>,
) -> (arrival: Arrival)
    ensures
        final(port).server() == old(port).server(),
        final(port).known == old(port).known,
        final(port).met() == old(port).met().push(
            Met::Receive { now, from: from@, data: data@, arrival },
        ),
{
    let Ok(from) = from.parse() else { return Arrival::Nothing };
    let (now, data) = (*base + Duration::from_nanos(now), BytesMut::from(data.as_slice()));
    let mut buffer = Vec::new();
    match port.endpoint.handle(now, from, None, None, data, &mut buffer) {
        None => Arrival::Nothing,
        Some(DatagramEvent::ConnectionEvent(to, event)) => Arrival::Event { handle: to.0, event },
        Some(DatagramEvent::NewConnection(incoming)) => Arrival::Attempt(incoming),
        Some(DatagramEvent::Response(sent)) => {
            buffer.truncate(sent.size);
            Arrival::Response(Datagram { destination: sent.destination.to_string(), data: buffer })
        }
    }
}

/// What a datagram that came in is.
pub(crate) fn receive(
    port: &mut Port,
    base: &Instant,
    now: u64,
    from: &str,
    data: &Vec<u8>,
) -> (arrival: Arrival)
    requires
        old(port).wf(),
    ensures
        final(port).wf(),
        final(port).server() == old(port).server(),
        final(port).met() == old(port).met().push(
            Met::Receive { now, from: from@, data: data@, arrival },
        ),
{
    let arrival = endpoint_receive(port, base, now, from, data);
    proof {
        lemma_unheard(
            old(port).met(),
            Met::Receive { now, from: from@, data: data@, arrival },
        );
    }
    arrival
}

/// The datagram that says why a connection was not let in, if there is one.
pub open spec fn refusal_view(result: Result<(usize, Engine), Option<Datagram>>) -> Option<
    (Seq<char>, Seq<u8>),
> {
    match result {
        Ok(_) => None,
        Err(datagram) => datagram_view(datagram),
    }
}

/// `Endpoint::accept`: the connection, which the other side made, and the
/// number the endpoint knows it by, or a datagram that says why not, if there
/// is one to send. The endpoint has to have said just now that somebody wants
/// to make this connection.
#[verifier::external_body]
fn endpoint_accept(port: &mut Port, base: &Instant, now: u64, incoming: Incoming) -> (result:
    Result<(usize, Engine), Option<Datagram>>)
    requires
        attempted(old(port).met(), incoming),
    ensures
        result matches Ok((handle, engine)) ==> engine.server() && engine.asked().len() == 0,
        final(port).server() == old(port).server(),
        final(port).known == old(port).known,
        final(port).met() == old(port).met().push(
            Met::Accept {
                now,
                incoming,
                handle: handle_of(result),
                answer: refusal_view(result),
            },
        ),
{
    let mut buffer = Vec::new();
    match port.endpoint.accept(incoming, *base + Duration::from_nanos(now), &mut buffer, None) {
        Ok((handle, connection)) => Ok((handle.0, Engine { connection, asked: Ghost(Seq::empty()) })),
        Err(error) => Err(error.response.map(|sent| {
            buffer.truncate(sent.size);
            Datagram { destination: sent.destination.to_string(), data: buffer }
        })),
    }
}

/// The connection, which the other side made, and the number the endpoint knows it by, or a
/// datagram that says why not, if there is one to send.
pub(crate) fn accept(port: &mut Port, base: &Instant, now: u64, incoming: Incoming) -> (result:
    Result<(usize, Engine), Option<Datagram>>)
    requires
        old(port).wf(),
        attempted(old(port).met(), incoming),
    ensures
        final(port).wf(),
        result matches Ok((handle, engine)) ==> engine.server() && engine.asked().len() == 0,
        final(port).server() == old(port).server(),
        final(port).met() == old(port).met().push(
            Met::Accept {
                now,
                incoming,
                handle: handle_of(result),
                answer: refusal_view(result),
            },
        ),
{
    let result = endpoint_accept(port, base, now, incoming);
    let ghost known = port.known@;
    assert(port.met().drop_last() =~= old(port).met());
    if let Ok((handle, _)) = &result {
        port.learn(*handle);
        proof {
            lemma_learned(known, *handle);
        }
    }
    result
}

/// `Endpoint::refuse`: the datagram that says no. The endpoint has to have said just now that
/// somebody wants to make this connection.
#[verifier::external_body]
fn endpoint_refuse(port: &mut Port, incoming: Incoming) -> (answer: Datagram)
    requires
        attempted(old(port).met(), incoming),
    ensures
        final(port).server() == old(port).server(),
        final(port).known == old(port).known,
        final(port).met() == old(port).met().push(
            Met::Refuse { incoming, answer: datagram_view(Some(answer)) },
        ),
{
    let mut buffer = Vec::new();
    let sent = port.endpoint.refuse(incoming, &mut buffer);
    buffer.truncate(sent.size);
    Datagram { destination: sent.destination.to_string(), data: buffer }
}

/// The datagram that says no to a connection that somebody wants to make.
pub(crate) fn refuse(port: &mut Port, incoming: Incoming) -> (answer: Datagram)
    requires
        old(port).wf(),
        attempted(old(port).met(), incoming),
    ensures
        final(port).wf(),
        final(port).server() == old(port).server(),
        final(port).met() == old(port).met().push(
            Met::Refuse { incoming, answer: datagram_view(Some(answer)) },
        ),
{
    let answer = endpoint_refuse(port, incoming);
    proof {
        lemma_unheard(
            old(port).met(),
            Met::Refuse { incoming, answer: datagram_view(Some(answer)) },
        );
    }
    answer
}

/// `Endpoint::handle_event`: an endpoint takes what a connection that it knows has for it, and may
/// have something for the connection.
#[verifier::external_body]
fn endpoint_event(port: &mut Port, handle: usize, event: EndpointEvent) -> (answer: Option<
    ConnectionEvent,
>)
    requires
        knows(old(port).met(), handle),
    ensures
        final(port).server() == old(port).server(),
        final(port).known == old(port).known,
        final(port).met() == old(port).met().push(Met::Event { handle, event, answer }),
{
    port.endpoint.handle_event(ConnectionHandle(handle), event)
}

/// Passes what a connection has for its endpoint on. An endpoint that does not know the
/// connection any more hears nothing.
pub(crate) fn pass_event(port: &mut Port, handle: usize, event: EndpointEvent) -> (answer: Option<
    ConnectionEvent,
>)
    requires
        old(port).wf(),
    ensures
        final(port).wf(),
        final(port).server() == old(port).server(),
        knows(old(port).met(), handle) ==> final(port).met() == old(port).met().push(
            Met::Event { handle, event, answer },
        ),
        !knows(old(port).met(), handle) ==> answer is None && *final(port) == *old(port),
{
    if !port.is_known(handle) {
        return None;
    }
    let drained = event_drains(&event);
    let answer = endpoint_event(port, handle, event);
    assert(port.met().drop_last() =~= old(port).met());
    if drained {
        port.unlearn(handle);
    }
    answer
}

/// `Connection::poll_endpoint_events`: what a connection has for its endpoint.
#[verifier::external_body]
pub(crate) fn next_endpoint_event(engine: &mut Engine) -> (event: Option<EndpointEvent>)
    ensures
        final(engine).server() == old(engine).server(),
        final(engine).asked() == old(engine).asked().push(Asked::Report { event }),
{
    engine.connection.poll_endpoint_events()
}

/// `Connection::handle_event`: a connection takes what its endpoint has for it.
#[verifier::external_body]
pub(crate) fn connection_event(engine: &mut Engine, event: ConnectionEvent)
    ensures
        final(engine).server() == old(engine).server(),
        final(engine).asked() == old(engine).asked().push(Asked::Told { event }),
{
    engine.connection.handle_event(event)
}

/// `Connection::poll_transmit`: the next datagram to send, one at a time.
#[verifier::external_body]
pub(crate) fn next_transmit(engine: &mut Engine, base: &Instant, now: u64) -> (datagram: Option<
    Datagram,
>)
    ensures
        final(engine).server() == old(engine).server(),
        final(engine).asked() == old(engine).asked().push(
            Asked::Transmit { now, sent: datagram_view(datagram) },
        ),
{
    let mut buffer = Vec::with_capacity(2048);
    let sent = engine.connection.poll_transmit(*base + Duration::from_nanos(now), 1, &mut buffer)?;
    buffer.truncate(sent.size);
    Some(Datagram { destination: sent.destination.to_string(), data: buffer })
}

/// `Connection::is_drained`: nothing is left of the connection.
#[verifier::external_body]
pub(crate) fn is_drained(engine: &mut Engine) -> (drained: bool)
    ensures
        final(engine).server() == old(engine).server(),
        final(engine).asked() == old(engine).asked().push(Asked::Drained { drained }),
{
    engine.connection.is_drained()
}

/// `Connection::is_handshaking`: the connection is not up yet.
#[verifier::external_body]
pub(crate) fn is_handshaking(engine: &mut Engine) -> (handshaking: bool)
    ensures
        final(engine).server() == old(engine).server(),
        final(engine).asked() == old(engine).asked().push(Asked::Handshaking { handshaking }),
{
    engine.connection.is_handshaking()
}

/// `Connection::poll_timeout`: when the connection wants to be woken, zero
/// for a time before the base.
#[verifier::external_body]
pub(crate) fn next_timeout(engine: &mut Engine, base: &Instant) -> (at: Option<u64>)
    ensures
        final(engine).server() == old(engine).server(),
        final(engine).asked() == old(engine).asked().push(Asked::Timeout { at }),
{
    engine.connection.poll_timeout().map(|at| at.saturating_duration_since(*base).as_nanos() as u64)
}

/// `Connection::handle_timeout`: the connection is woken.
#[verifier::external_body]
pub(crate) fn wake(engine: &mut Engine, base: &Instant, now: u64)
    ensures
        final(engine).server() == old(engine).server(),
        final(engine).asked() == old(engine).asked().push(Asked::Wake { now }),
{
    engine.connection.handle_timeout(*base + Duration::from_nanos(now))
}

/// `Connection::poll`: what the connection has for the application, variant by
/// variant. Of a lost connection the reason is written out, and kept apart
/// where the other application closed it.
#[verifier::external_body]
pub(crate) fn next_signal(engine: &mut Engine) -> (signal: Option<Signal>)
    ensures
        final(engine).server() == old(engine).server(),
        final(engine).asked() == old(engine).asked().push(Asked::Poll { signal }),
{
    Some(match engine.connection.poll()? {
        Event::HandshakeDataReady => Signal::HandshakeDataReady,
        Event::Connected => Signal::Connected,
        Event::ConnectionLost { reason } => Signal::Lost {
            reason: reason.to_string(),
            application: match reason {
                ConnectionError::ApplicationClosed(close) => Some((close.error_code.into_inner(), close.reason.to_vec())),
                _ => None,
            },
        },
        Event::Stream(event) => Signal::Stream(event),
        Event::DatagramReceived => Signal::DatagramReceived,
        Event::DatagramsUnblocked => Signal::DatagramsUnblocked,
    })
}

/// What the engine's word on a stream says.
pub uninterp spec fn stream_news(event: StreamEvent) -> StreamSignal;

/// A `StreamEvent` variant by variant. The engine's value is opaque: what it says is named.
#[verifier::external_body]
pub(crate) fn stream_signal(event: StreamEvent) -> (signal: StreamSignal)
    ensures
        signal == stream_news(event),
{
    match event {
        StreamEvent::Opened { dir } => StreamSignal::Opened { bidirectional: dir == Dir::Bi },
        StreamEvent::Readable { id } => StreamSignal::Readable { stream: id.into() },
        StreamEvent::Writable { id } => StreamSignal::Writable { stream: id.into() },
        StreamEvent::Finished { id } => StreamSignal::Finished { stream: id.into() },
        StreamEvent::Stopped { id, error_code } => {
            StreamSignal::Stopped { stream: id.into(), error_code: error_code.into_inner() }
        }
        StreamEvent::Available { .. } => StreamSignal::Available,
    }
}

/// The application protocol that `Session::handshake_data` names.
#[verifier::external_body]
pub(crate) fn alpn(engine: &mut Engine) -> (alpn: Option<Vec<u8>>)
    ensures
        final(engine).server() == old(engine).server(),
        final(engine).asked() == old(engine).asked().push(Asked::Alpn { alpn: bytes_view(alpn) }),
{
    let data = engine.connection.crypto_session().handshake_data()?;
    data.downcast::<HandshakeData>().ok()?.protocol
}

/// `Connection::remote_address` as text.
#[verifier::external_body]
pub(crate) fn peer(engine: &mut Engine) -> (peer: String)
    ensures
        final(engine).server() == old(engine).server(),
        final(engine).asked() == old(engine).asked().push(Asked::Peer { peer: peer@ }),
{
    engine.connection.remote_address().to_string()
}

/// `Streams::open`: a new stream, if the peer allows one more.
#[verifier::external_body]
pub(crate) fn open(engine: &mut Engine, bidirectional: bool) -> (stream: Option<u64>)
    ensures
        final(engine).server() == old(engine).server(),
        final(engine).asked() == old(engine).asked().push(Asked::Open { bidirectional, stream }),
{
    let dir = if bidirectional { Dir::Bi } else { Dir::Uni };
    engine.connection.streams().open(dir).map(u64::from)
}

/// `Streams::accept`: the next stream that the peer has opened.
#[verifier::external_body]
pub(crate) fn accept_stream(engine: &mut Engine, bidirectional: bool) -> (stream: Option<u64>)
    ensures
        final(engine).server() == old(engine).server(),
        final(engine).asked() == old(engine).asked().push(Asked::Accept { bidirectional, stream }),
{
    let dir = if bidirectional { Dir::Bi } else { Dir::Uni };
    engine.connection.streams().accept(dir).map(u64::from)
}

/// `RecvStream::read` in order, and `Chunks::next` of at most `limit` bytes:
/// the next bytes of a stream or why there are none. The engine insists on a
/// stream that this side receives on.
#[verifier::external_body]
pub(crate) fn read(engine: &mut Engine, stream: u64, limit: usize) -> (outcome: ReadOutcome)
    requires
        stream < VARINT_BOUND,
        receives(old(engine).server(), stream),
    ensures
        final(engine).server() == old(engine).server(),
        final(engine).asked() == old(engine).asked().push(Asked::Read { stream, limit, outcome: outcome@ }),
{
    let mut recv = engine.connection.recv_stream(StreamId::from(VarInt::try_from(stream).unwrap()));
    let Ok(mut chunks) = recv.read(true) else { return ReadOutcome::Closed };
    let result = chunks.next(limit);
    let _ = chunks.finalize();
    match result {
        Ok(Some(chunk)) => ReadOutcome::Data(chunk.bytes.to_vec()),
        Ok(None) => ReadOutcome::End,
        Err(ReadError::Blocked) => ReadOutcome::Blocked,
        Err(ReadError::Reset(code)) => ReadOutcome::Reset(code.into_inner()),
    }
}

/// `SendStream::write` of the bytes from `offset` on: how many were taken,
/// never more than there are, or why none were. The engine insists on a
/// stream that this side sends on.
#[verifier::external_body]
pub(crate) fn write(engine: &mut Engine, stream: u64, data: &Vec<u8>, offset: usize) -> (outcome:
    WriteOutcome)
    requires
        stream < VARINT_BOUND,
        sends(old(engine).server(), stream),
        offset <= data@.len(),
    ensures
        final(engine).server() == old(engine).server(),
        final(engine).asked() == old(engine).asked().push(
            Asked::Write { stream, data: data@.skip(offset as int), outcome: outcome@ },
        ),
        outcome matches WriteOutcome::Written(count) ==> count <= data@.len() - offset,
{
    let id = StreamId::from(VarInt::try_from(stream).unwrap());
    match engine.connection.send_stream(id).write(&data[offset..]) {
        Ok(count) => WriteOutcome::Written(count),
        Err(WriteError::Blocked) => WriteOutcome::Blocked,
        Err(error) => WriteOutcome::Failed(error.to_string()),
    }
}

/// `SendStream::finish`. The engine insists on a stream that this side sends
/// on.
#[verifier::external_body]
pub(crate) fn finish(engine: &mut Engine, stream: u64) -> (outcome: CallOutcome)
    requires
        stream < VARINT_BOUND,
        sends(old(engine).server(), stream),
    ensures
        final(engine).server() == old(engine).server(),
        final(engine).asked() == old(engine).asked().push(Asked::Finish { stream, outcome: outcome@ }),
{
    let id = StreamId::from(VarInt::try_from(stream).unwrap());
    match engine.connection.send_stream(id).finish() {
        Ok(()) => CallOutcome::Done,
        Err(error) => CallOutcome::Failed(error.to_string()),
    }
}

/// `SendStream::reset`. The engine insists on a stream that this side sends
/// on.
#[verifier::external_body]
pub(crate) fn reset(engine: &mut Engine, stream: u64, code: u64) -> (outcome: CallOutcome)
    requires
        stream < VARINT_BOUND,
        code < VARINT_BOUND,
        sends(old(engine).server(), stream),
    ensures
        final(engine).server() == old(engine).server(),
        final(engine).asked() == old(engine).asked().push(Asked::Reset { stream, code, outcome: outcome@ }),
{
    let id = StreamId::from(VarInt::try_from(stream).unwrap());
    match engine.connection.send_stream(id).reset(VarInt::try_from(code).unwrap()) {
        Ok(()) => CallOutcome::Done,
        Err(error) => CallOutcome::Failed(error.to_string()),
    }
}

/// `RecvStream::stop`. The engine insists on a stream that this side receives
/// on.
#[verifier::external_body]
pub(crate) fn stop(engine: &mut Engine, stream: u64, code: u64) -> (outcome: CallOutcome)
    requires
        stream < VARINT_BOUND,
        code < VARINT_BOUND,
        receives(old(engine).server(), stream),
    ensures
        final(engine).server() == old(engine).server(),
        final(engine).asked() == old(engine).asked().push(Asked::Stop { stream, code, outcome: outcome@ }),
{
    let id = StreamId::from(VarInt::try_from(stream).unwrap());
    match engine.connection.recv_stream(id).stop(VarInt::try_from(code).unwrap()) {
        Ok(()) => CallOutcome::Done,
        Err(error) => CallOutcome::Failed(error.to_string()),
    }
}

/// `Datagrams::send`, without dropping older datagrams.
#[verifier::external_body]
pub(crate) fn send_datagram(engine: &mut Engine, data: &Vec<u8>) -> (outcome: CallOutcome)
    ensures
        final(engine).server() == old(engine).server(),
        final(engine).asked() == old(engine).asked().push(Asked::Send { data: data@, outcome: outcome@ }),
{
    match engine.connection.datagrams().send(Bytes::copy_from_slice(data), false) {
        Ok(()) => CallOutcome::Done,
        Err(error) => CallOutcome::Failed(error.to_string()),
    }
}

/// `Datagrams::recv`: the next datagram that has come.
#[verifier::external_body]
pub(crate) fn next_datagram(engine: &mut Engine) -> (data: Option<Vec<u8>>)
    ensures
        final(engine).server() == old(engine).server(),
        final(engine).asked() == old(engine).asked().push(Asked::Receive { data: bytes_view(data) }),
{
    engine.connection.datagrams().recv().map(|data| data.to_vec())
}

/// `Connection::close` with a code and a reason.
#[verifier::external_body]
pub(crate) fn close(engine: &mut Engine, base: &Instant, now: u64, code: u64, reason: &[u8])
    requires
        code < VARINT_BOUND,
    ensures
        final(engine).server() == old(engine).server(),
        final(engine).asked() == old(engine).asked().push(Asked::Close { now, code, reason: reason@ }),
{
    let (now, code) = (*base + Duration::from_nanos(now), VarInt::try_from(code).unwrap());
    engine.connection.close(now, code, Bytes::copy_from_slice(reason))
}

/// `Connection::stats` and its companions: what the engine knows of the
/// connection.
#[verifier::external_body]
pub(crate) fn info(engine: &mut Engine) -> (info: ProtoInfo)
    ensures
        final(engine).server() == old(engine).server(),
        final(engine).asked() == old(engine).asked().push(Asked::Info { info: info@ }),
{
    let stats = engine.connection.stats();
    ProtoInfo {
        closed: engine.connection.is_closed(),
        handshaking: engine.connection.is_handshaking(),
        peer: engine.connection.remote_address().to_string(),
        rtt_nanos: stats.path.rtt.as_nanos(),
        congestion_window: stats.path.cwnd,
        send_streams: engine.connection.streams().send_streams(),
    }
}

} // verus!
