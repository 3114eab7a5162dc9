//! QUIC: limits, books, and two services that talk to each other.

use quinn_proto::crypto::rustls::{QuicClientConfig, QuicServerConfig};
use quinn_proto::{ClientConfig, ServerConfig};
use rcgen::{generate_simple_self_signed, CertifiedKey};
use rskynet::net::event::{SocketEvent, SocketId};
use rskynet::quic::books::duration_ceil_ms;
use rskynet::quic::command::{
    checked_error_code, proto_stream_id, Answer, Command, QuicClientOptions, QuicServerOptions,
};
use rskynet::quic::config::{QuicConfig, QuicTransportOptions};
use rskynet::quic::event::{
    QuicConnectionId, QuicEvent, QuicListenerId, QuicStreamId, StreamDirection,
};
use rskynet::quic::output::{DriveOutput, OutboundPacket, Pending, TimerArm};
use rskynet::quic::service::QuicService;
use rskynet::quic::setup::{
    connect_first, connect_next, ConnectAction, ConnectProgress, Flow, SocketAddresses,
};
use rskynet::quic::state::State;
use rustls::pki_types::{PrivateKeyDer, PrivatePkcs8KeyDer};
use std::sync::Arc;

#[test]
fn defaults_are_valid() {
    QuicConfig::default().validate().unwrap();
    QuicTransportOptions::default().build().unwrap();
}

#[test]
fn invalid_watermarks_are_rejected() {
    let mut config = QuicConfig::default();
    config.write_low_water = config.write_high_water;
    assert!(config.validate().is_err());
}

#[test]
fn datagrams_can_be_disabled() {
    let options = QuicTransportOptions {
        datagrams: false,
        ..Default::default()
    };
    options.build().unwrap();
    assert_eq!(options.datagram_buffers(), (None, 0));
}

#[test]
fn windows_and_timeouts_are_checked() {
    let empty = QuicTransportOptions {
        receive_window: 0,
        ..Default::default()
    };
    assert!(empty.build().is_err());
    let endless = QuicTransportOptions {
        max_idle_timeout_ms: 1 << 62,
        ..Default::default()
    };
    assert!(endless.build().is_err());
    let broken = QuicConfig {
        max_handshakes: 2,
        max_connections: 1,
        ..Default::default()
    };
    assert!(broken.validate().is_err());
}

#[test]
fn connect_reservations_enforce_both_limits() {
    let config = QuicConfig {
        max_connections: 1,
        max_handshakes: 1,
        ..Default::default()
    };
    let mut state = State::default();
    assert!(state.reserve_connect(&config, 0));
    assert!(!state.reserve_connect(&config, 0));
    state.release_connect();
    assert!(state.reserve_connect(&config, 0));
}

#[test]
fn invalid_application_error_codes_are_rejected_without_panicking() {
    assert!(checked_error_code((1_u64 << 62) - 1).is_ok());
    assert!(checked_error_code(1_u64 << 62).is_err());
    assert!(checked_error_code(u64::MAX).is_err());
}

#[test]
fn numbers_are_checked_and_never_zero() {
    assert_eq!(proto_stream_id(QuicStreamId(4)).unwrap(), 4);
    assert_eq!(
        proto_stream_id(QuicStreamId(1 << 62)).unwrap_err(),
        format!("stream#{} 超出 QUIC stream id 范围", 1_u64 << 62)
    );
    let mut state = State::default();
    state.next_listener = u32::MAX;
    state.next_connection = u64::MAX;
    assert_eq!(state.listener_id(), QuicListenerId(1));
    assert_eq!(state.connection_id(), QuicConnectionId(1));
    assert_eq!(duration_ceil_ms(1), 1);
    assert_eq!(duration_ceil_ms(1_000_000), 1);
    assert_eq!(duration_ceil_ms(1_001_000), 2);
    assert_eq!(duration_ceil_ms(1_000_999), 1);
}

#[test]
fn the_way_to_a_connection() {
    let plain = QuicClientOptions::new("a:1".into(), "a".into());
    assert!(matches!(connect_first(&plain), ConnectAction::OpenForPeer));
    assert!(matches!(
        connect_next(&plain, ConnectProgress::Opened(Ok(3))),
        ConnectAction::Describe { socket: 3 }
    ));
    let hasty = QuicClientOptions::new("a:1".into(), "a".into()).with_connect_timeout_ms(7);
    assert_eq!(hasty.connect_timeout_ms, Some(7));
    assert_eq!(hasty.timeout_ms(&QuicConfig::default()), 7);
    assert_eq!(plain.timeout_ms(&QuicConfig::default()), 10_000);
    let bound = QuicClientOptions::new("a:1".into(), "a".into()).with_bind("b:2".into());
    assert!(matches!(connect_first(&bound), ConnectAction::OpenBound));
    assert!(matches!(
        connect_next(&bound, ConnectProgress::Opened(Ok(3))),
        ConnectAction::SetPeer { socket: 3 }
    ));
    assert!(matches!(
        connect_next(&bound, ConnectProgress::Opened(Err("no".into()))),
        ConnectAction::GiveUp { socket: None, .. }
    ));
    let known = ConnectProgress::Described {
        socket: 3,
        result: Ok(SocketAddresses {
            local: None,
            peer: Some("p:9".into()),
        }),
    };
    match connect_next(&bound, known) {
        ConnectAction::Connect { socket, peer, .. } => {
            assert_eq!((socket, peer.as_str()), (3, "p:9"))
        }
        other => panic!("{other:?}"),
    }
}

const SERVER: &str = "127.0.0.1:4433";
const CLIENT: &str = "127.0.0.1:5555";
const SERVER_SOCKET: u32 = 7;
const CLIENT_SOCKET: u32 = 9;
const ECHO: u32 = 70;
const CALLER: u32 = 90;

fn ask(source: u32, session: u64) -> Pending {
    Pending { source, session }
}

fn configs() -> (ClientConfig, ServerConfig) {
    let CertifiedKey { cert, key_pair } =
        generate_simple_self_signed(vec!["localhost".to_string()]).unwrap();
    let provider = Arc::new(rustls::crypto::ring::default_provider());
    let mut roots = rustls::RootCertStore::empty();
    roots.add(cert.der().clone()).unwrap();
    let mut client = rustls::ClientConfig::builder_with_provider(provider.clone())
        .with_protocol_versions(&[&rustls::version::TLS13])
        .unwrap()
        .with_root_certificates(roots)
        .with_no_client_auth();
    client.alpn_protocols = vec![b"rskynet-test".to_vec()];
    let key = PrivateKeyDer::Pkcs8(PrivatePkcs8KeyDer::from(key_pair.serialize_der()));
    let mut server = rustls::ServerConfig::builder_with_provider(provider)
        .with_protocol_versions(&[&rustls::version::TLS13])
        .unwrap()
        .with_no_client_auth()
        .with_single_cert(vec![cert.der().clone()], key)
        .unwrap();
    server.alpn_protocols = vec![b"rskynet-test".to_vec()];
    (
        ClientConfig::new(Arc::new(QuicClientConfig::try_from(client).unwrap())),
        ServerConfig::with_crypto(Arc::new(QuicServerConfig::try_from(server).unwrap())),
    )
}

/// Two services, and the wire between them.
struct Pair {
    client: QuicService,
    server: QuicService,
    wire: Vec<OutboundPacket>,
    events: Vec<(u32, QuicEvent)>,
    replies: Vec<(u64, Answer)>,
    timers: [Option<TimerArm>; 2],
    cut: bool,
    ahead: u64,
}

impl Pair {
    fn new(config: QuicConfig) -> Pair {
        Pair {
            client: QuicService::new(config),
            server: QuicService::new(QuicConfig::default()),
            wire: Vec::new(),
            events: Vec::new(),
            replies: Vec::new(),
            timers: [None, None],
            cut: false,
            ahead: 0,
        }
    }

    fn keep(&mut self, output: DriveOutput) {
        self.wire.extend(output.packets);
        for event in output.events {
            self.events.push((event.owner, event.event));
        }
        for reply in output.replies {
            self.replies.push((reply.pending.session, reply.answer));
        }
        if let Some(timer) = output.timer {
            let place = if timer.socket == CLIENT_SOCKET { 0 } else { 1 };
            self.timers[place] = Some(timer);
        }
    }

    /// Delivers what is on the wire, until nothing is.
    fn deliver(&mut self) {
        while !self.wire.is_empty() {
            let packet = self.wire.remove(0);
            if self.cut {
                continue;
            }
            let (service, id, from) = if packet.socket == CLIENT_SOCKET {
                assert_eq!(packet.destination, SERVER);
                (&mut self.server, SERVER_SOCKET, CLIENT)
            } else {
                assert_eq!(packet.destination, CLIENT);
                (&mut self.client, CLIENT_SOCKET, SERVER)
            };
            let event = SocketEvent::Udp {
                id: SocketId(id),
                from: from.into(),
                data: packet.data,
            };
            let now = service.now() + self.ahead;
            let output = service.on_socket(&event, now);
            self.keep(output);
        }
    }

    /// Lets some time pass, and the timers go off.
    fn pass(&mut self) {
        self.ahead += 5_000_000;
        for place in 0..2 {
            if let Some(timer) = self.timers[place].take() {
                let tick = Command::Tick {
                    socket: timer.socket,
                    generation: timer.generation,
                };
                self.command(place == 0, 0, tick);
                if self.timers[place].is_none() {
                    self.timers[place] = Some(timer);
                }
            }
        }
    }

    /// Delivers and lets timers go off, until something holds.
    fn run(&mut self, until: impl Fn(&Pair) -> bool) {
        for _ in 0..400 {
            self.deliver();
            if until(self) {
                return;
            }
            self.pass();
        }
        panic!("it did not come to that: {:?}", self.events);
    }

    fn command(&mut self, client: bool, session: u64, command: Command) {
        let (service, source) = if client {
            (&mut self.client, CALLER)
        } else {
            (&mut self.server, ECHO)
        };
        let now = service.now() + self.ahead;
        let pending = ask(source, session);
        assert!(service.state.admits(&service.config, pending, &command));
        match service.on_command(pending, command, now) {
            Flow::Settled(output) => self.keep(output),
            other => panic!("{other:?}"),
        }
    }

    fn answer(&mut self, session: u64) -> Answer {
        let place = self
            .replies
            .iter()
            .position(|(of, _)| *of == session)
            .expect("an answer");
        self.replies.remove(place).1
    }

    fn listen(&mut self, server: ServerConfig, transport: QuicTransportOptions) {
        let options = QuicServerOptions::new(SERVER.into()).with_transport(transport);
        let server = options.proto_config(server).unwrap();
        let pending = ask(ECHO, 1);
        let output = self
            .server
            .listen_bound(pending, SERVER_SOCKET, Some(SERVER.into()), false, server);
        self.keep(output);
    }

    fn connect(&mut self, client: ClientConfig, transport: QuicTransportOptions) {
        let options =
            QuicClientOptions::new(SERVER.into(), "localhost".into()).with_transport(transport);
        let client = self.client.connect_begin(&options, client).unwrap();
        let now = self.client.now() + self.ahead;
        let (output, deadline) = self.client.connect_ready(
            ask(CALLER, 2),
            &options,
            client,
            CLIENT_SOCKET,
            Some(CLIENT.into()),
            SERVER,
            now,
        );
        assert_eq!(deadline.unwrap().timeout_ms, 10_000);
        self.keep(output);
    }

    fn connected(&self, owner: u32) -> Option<QuicConnectionId> {
        self.events.iter().find_map(|(of, event)| match event {
            QuicEvent::Connected { id, .. } if *of == owner => Some(*id),
            _ => None,
        })
    }
}

fn constrained() -> QuicTransportOptions {
    QuicTransportOptions {
        stream_receive_window: 1024,
        receive_window: 1024,
        ..Default::default()
    }
}

fn up(transport: fn() -> QuicTransportOptions) -> (Pair, QuicConnectionId, QuicConnectionId) {
    let (client, server) = configs();
    let mut pair = Pair::new(QuicConfig::default());
    pair.listen(server, transport());
    let listener = pair.answer(1).listener().unwrap();
    assert_eq!(listener, QuicListenerId(1));
    pair.connect(client, transport());
    pair.run(|pair| pair.connected(CALLER).is_some() && pair.connected(ECHO).is_some());
    let mine = pair.answer(2).connection().unwrap();
    assert_eq!(Some(mine), pair.connected(CALLER));
    let theirs = pair.connected(ECHO).unwrap();
    (pair, mine, theirs)
}

#[test]
fn client_and_server_exchange_stream_data() {
    let (mut pair, mine, theirs) = up(constrained);
    pair.command(false, 3, Command::Start(theirs));
    pair.answer(3).done().unwrap();
    // Nobody but its owner ends a connection, or uses it.
    let now = pair.client.now() + pair.ahead;
    for (session, command) in [(0, Command::Shutdown(mine)), (50, Command::OpenBi(mine))] {
        match pair.client.on_command(ask(CALLER + 1, session), command, now) {
            Flow::Settled(output) => pair.keep(output),
            other => panic!("{other:?}"),
        }
    }
    assert!(pair.answer(50).stream().is_err());

    pair.command(true, 4, Command::OpenBi(mine));
    let stream = pair.answer(4).stream().unwrap();
    let payload = vec![b'q'; 32 * 1024];
    let send = Command::Send {
        id: mine,
        stream,
        data: payload.clone(),
        wait: false,
    };
    pair.command(true, 0, send);
    pair.command(true, 5, Command::Finish { id: mine, stream });
    pair.command(true, 6, Command::Start(mine));

    // The server sends back what it gets.
    let mut seen = 0;
    for _ in 0..4000 {
        pair.deliver();
        while seen < pair.events.len() {
            let echo = match &pair.events[seen] {
                (ECHO, QuicEvent::StreamData { id, stream, data }) => Some(Command::Send {
                    id: *id,
                    stream: *stream,
                    data: data.clone(),
                    wait: true,
                }),
                (ECHO, QuicEvent::ReceiveFinished { id, stream }) => Some(Command::Finish {
                    id: *id,
                    stream: *stream,
                }),
                _ => None,
            };
            seen += 1;
            if let Some(command) = echo {
                pair.command(false, 7, command);
            }
        }
        let finished = |owner: u32, sent: bool| {
            pair.events.iter().any(|(of, event)| {
                *of == owner
                    && match event {
                        QuicEvent::SendFinished { .. } => sent,
                        QuicEvent::ReceiveFinished { .. } => !sent,
                        _ => false,
                    }
            })
        };
        if finished(CALLER, true) && finished(CALLER, false) {
            break;
        }
        pair.pass();
    }
    let mut received = Vec::new();
    for (of, event) in &pair.events {
        if let QuicEvent::StreamData { data, .. } = event {
            if *of == CALLER {
                received.extend_from_slice(data);
            }
        }
    }
    assert_eq!(received, payload);
}

#[test]
fn events_wait_for_the_start() {
    let (mut pair, mine, theirs) = up(QuicTransportOptions::default);
    pair.command(true, 3, Command::OpenBi(mine));
    let stream = pair.answer(3).stream().unwrap();
    let send = Command::Send {
        id: mine,
        stream,
        data: vec![1, 2, 3],
        wait: true,
    };
    pair.command(true, 4, send);
    pair.answer(4).done().unwrap();
    pair.run(|pair| pair.wire.is_empty());
    assert!(!pair.events.iter().any(|(_, e)| matches!(e, QuicEvent::StreamData { .. })));
    pair.command(false, 5, Command::Start(theirs));
    pair.answer(5).done().unwrap();
    pair.run(|pair| {
        pair.events.iter().any(
            |(of, e)| *of == ECHO && matches!(e, QuicEvent::StreamData { data, .. } if data == &[1, 2, 3]),
        )
    });
    let opened = pair.events.iter().any(|(of, e)| {
        *of == ECHO
            && matches!(
                e,
                QuicEvent::StreamOpened { direction: StreamDirection::Bidirectional, .. }
            )
    });
    assert!(opened);
}

#[test]
fn what_is_known_of_a_connection() {
    let (mut pair, mine, theirs) = up(QuicTransportOptions::default);
    pair.command(true, 3, Command::Info(mine));
    let info = pair.answer(3).info().unwrap();
    assert_eq!(info.state, "connected");
    assert_eq!(info.peer.as_str(), SERVER);
    assert_eq!(info.alpn.as_deref(), Some(&b"rskynet-test"[..]));
    assert_eq!(info.owner, CALLER);
    pair.command(true, 4, Command::Netstat);
    assert_eq!(pair.answer(4).infos().unwrap().len(), 1);
    pair.command(false, 5, Command::ListenerLocalAddr(QuicListenerId(1)));
    assert_eq!(pair.answer(5).local_addr().unwrap(), SERVER);

    pair.command(false, 6, Command::Start(theirs));
    pair.answer(6).done().unwrap();
    let datagram = Command::SendDatagram {
        id: mine,
        data: b"unreliable".to_vec(),
    };
    pair.command(true, 7, datagram);
    pair.answer(7).done().unwrap();
    pair.run(|pair| {
        pair.events
            .iter()
            .any(|(_, e)| matches!(e, QuicEvent::Datagram { data, .. } if data == b"unreliable"))
    });

    pair.command(true, 8, Command::OpenUni(mine));
    let stream = pair.answer(8).stream().unwrap();
    let reset = Command::Reset {
        id: mine,
        stream,
        error_code: 77,
    };
    let send = Command::Send {
        id: mine,
        stream,
        data: vec![1],
        wait: true,
    };
    pair.command(true, 9, send);
    pair.answer(9).done().unwrap();
    pair.command(true, 10, reset);
    pair.answer(10).done().unwrap();
    pair.run(|pair| {
        pair.events
            .iter()
            .any(|(_, e)| matches!(e, QuicEvent::StreamReset { error_code: 77, .. }))
    });
}

#[test]
fn a_stream_that_is_stopped_is_told() {
    let (mut pair, mine, theirs) = up(QuicTransportOptions::default);
    pair.command(false, 3, Command::Start(theirs));
    pair.command(true, 4, Command::OpenBi(mine));
    let stream = pair.answer(4).stream().unwrap();
    let send = Command::Send {
        id: mine,
        stream,
        data: vec![1],
        wait: false,
    };
    pair.command(true, 5, send);
    pair.run(|pair| {
        pair.events
            .iter()
            .any(|(_, e)| matches!(e, QuicEvent::StreamData { .. }))
    });
    let stop = Command::Stop {
        id: theirs,
        stream,
        error_code: 5,
    };
    pair.command(false, 6, stop);
    pair.answer(6).done().unwrap();
    pair.run(|pair| {
        pair.events.iter().any(|(of, e)| {
            *of == CALLER && matches!(e, QuicEvent::StreamStopped { error_code: 5, .. })
        })
    });
}

#[test]
fn raw_commands_with_invalid_error_codes_do_not_abort() {
    let mut pair = Pair::new(QuicConfig::default());
    let close = Command::Close {
        id: QuicConnectionId(1),
        error_code: 1_u64 << 62,
        reason: Vec::new(),
    };
    pair.command(true, 1, close);
    let answer = pair.answer(1);
    assert!(matches!(answer, Answer::Failed(reason) if reason.contains("error code")));
}

#[test]
fn a_connection_outlives_codes_that_are_no_codes() {
    let (mut pair, mine, _) = up(QuicTransportOptions::default);
    pair.command(true, 3, Command::OpenBi(mine));
    let stream = pair.answer(3).stream().unwrap();
    let error_code = u64::MAX;
    pair.command(true, 4, Command::Reset { id: mine, stream, error_code });
    pair.command(true, 5, Command::Stop { id: mine, stream, error_code });
    for session in [4, 5] {
        assert!(matches!(pair.answer(session), Answer::Failed(reason) if reason.contains("error code")));
    }
    pair.command(true, 6, Command::OpenBi(mine));
    assert!(pair.answer(6).stream().is_ok());
}

#[test]
fn a_peer_drop_before_start_still_emits_a_terminal_event() {
    let (mut pair, mine, theirs) = up(QuicTransportOptions::default);
    let close = Command::Close {
        id: mine,
        error_code: 0,
        reason: b"done".to_vec(),
    };
    pair.command(true, 3, close);
    pair.answer(3).done().unwrap();
    pair.run(|pair| {
        pair.events.iter().any(|(of, e)| {
            *of == ECHO
                && match e {
                    QuicEvent::Close { id, error_code, reason } => {
                        *id == theirs && *error_code == Some(0) && reason == b"done"
                    }
                    _ => false,
                }
        })
    });
}

#[test]
fn a_failed_handshake_does_not_publish_an_internal_connection_id() {
    let (_, server) = configs();
    let (unrelated, _) = configs();
    let mut pair = Pair::new(QuicConfig::default());
    pair.listen(server, QuicTransportOptions::default());
    pair.connect(unrelated, QuicTransportOptions::default());
    pair.run(|pair| pair.replies.iter().any(|(of, _)| *of == 2));
    assert!(pair.answer(2).connection().is_err());
    for _ in 0..20 {
        pair.deliver();
        pair.pass();
    }
    assert!(pair.events.iter().all(|(of, _)| *of != CALLER));
}

#[test]
fn a_handshake_that_takes_too_long_is_given_up() {
    let (client, server) = configs();
    let mut pair = Pair::new(QuicConfig::default());
    pair.listen(server, QuicTransportOptions::default());
    pair.cut = true;
    pair.connect(client, QuicTransportOptions::default());
    pair.command(true, 0, Command::ConnectTimeout(QuicConnectionId(1)));
    assert!(pair.answer(2).connection().is_err());
    assert!(pair.events.is_empty());
}

#[test]
fn a_lost_socket_takes_its_connections_with_it() {
    let (mut pair, mine, _) = up(QuicTransportOptions::default);
    let gone = SocketEvent::Close {
        id: SocketId(CLIENT_SOCKET),
    };
    let now = pair.client.now() + pair.ahead;
    let output = pair.client.on_socket(&gone, now);
    pair.keep(output);
    match &pair.events.last().unwrap().1 {
        QuicEvent::Error { id, reason } => {
            assert_eq!(*id, mine);
            assert_eq!(reason, "底层 UDP socket 已关闭");
        }
        other => panic!("{other:?}"),
    }
    pair.command(true, 3, Command::Info(mine));
    assert!(pair.answer(3).info().is_err());
}

#[test]
fn a_listener_that_is_closed_takes_no_more() {
    let (_, server) = configs();
    let mut pair = Pair::new(QuicConfig::default());
    pair.listen(server, QuicTransportOptions::default());
    pair.command(false, 3, Command::CloseListener(QuicListenerId(1)));
    pair.answer(3).done().unwrap();
    pair.command(false, 4, Command::CloseListener(QuicListenerId(1)));
    assert!(pair.answer(4).done().is_err());
    let (_, again) = configs();
    let options = QuicServerOptions::new("0.0.0.0:1".into());
    let again = options.proto_config(again).unwrap();
    let pending = ask(ECHO, 5);
    let output = pair
        .server
        .listen_bound(pending, SERVER_SOCKET, Some("0.0.0.0:1".into()), true, again);
    assert_eq!(output.close_sockets, vec![SERVER_SOCKET]);
}

#[test]
fn a_full_service_connects_no_more() {
    let (client, _) = configs();
    let config = QuicConfig {
        max_connections: 1,
        max_handshakes: 1,
        ..Default::default()
    };
    let mut pair = Pair::new(config);
    let options = QuicClientOptions::new(SERVER.into(), "localhost".into());
    pair.client.connect_begin(&options, client).unwrap();
    let (client, _) = configs();
    assert_eq!(
        pair.client.connect_begin(&options, client).err().unwrap(),
        "QUIC 连接/握手容量已满"
    );
    let output = pair.client.connect_failed(ask(CALLER, 8), Some(4), "no".into());
    assert_eq!(output.close_sockets, vec![4]);
    let (client, _) = configs();
    assert!(pair.client.connect_begin(&options, client).is_ok());
}

#[test]
fn who_does_not_own_a_connection_is_refused_before_its_streams_count() {
    let (mut pair, mine, _) = up(QuicTransportOptions::default);
    let stranger = ask(ECHO, 3);
    for stream in [QuicStreamId(3), QuicStreamId(2)] {
        let send = Command::Send { id: mine, stream, data: vec![1], wait: true };
        assert!(pair.client.state.admits(&pair.client.config, stranger, &send));
        let now = pair.client.now() + pair.ahead;
        match pair.client.on_command(stranger, send, now) {
            Flow::Settled(output) => pair.keep(output),
            other => panic!("{other:?}"),
        }
        let answer = pair.answer(3);
        assert!(matches!(answer, Answer::Failed(reason) if reason.contains("不属于调用方")));
    }
    let owner = ask(CALLER, 4);
    let send = Command::Send { id: mine, stream: QuicStreamId(3), data: vec![1], wait: false };
    assert!(!pair.client.state.admits(&pair.client.config, owner, &send));
}

#[test]
fn a_connection_that_the_engine_refuses_is_given_up() {
    let (client, _) = configs();
    let mut pair = Pair::new(QuicConfig::default());
    let options = QuicClientOptions::new(SERVER.into(), "localhost".into());
    let setup = pair.client.connect_begin(&options, client).unwrap();
    let now = pair.client.now();
    let pending = ask(CALLER, 2);
    let (output, deadline) =
        pair.client.connect_ready(pending, &options, setup, CLIENT_SOCKET, None, "nowhere", now);
    assert!(deadline.is_none());
    assert_eq!(output.close_sockets, vec![CLIENT_SOCKET]);
    pair.keep(output);
    assert!(matches!(pair.answer(2), Answer::Failed(reason) if !reason.is_empty()));
}
