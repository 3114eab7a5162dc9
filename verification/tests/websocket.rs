//! WebSockets, from the handshake to the close.

use rskynet::http::error::HttpError;
use rskynet::http::handshake::{HandshakeResponse, Shaken};
use rskynet::http::origin::UriParts;
use rskynet::http::server::HttpServer;
use rskynet::http::socket::{RecvNext, SharedSocket, SocketLimits, SocketOptions, WebSocketId};
use rskynet::http::stream::EventIo;
use rskynet::http::traffic::DataNext;
use rskynet::http::transport::TransportId;
use rskynet::http::upgrade::{
    check_protocol, holds_name, read_value, upgrade_response, upgrade_with,
    WebSocketUpgradeOptions,
};
use rskynet::http::websocket::{
    socket_target, BeginNext, ClientData, HandshakeNext, PollNext, WebSocketClient,
    WebSocketClientConfig,
};
use rskynet::net::event::SocketId;
use std::io::ErrorKind;
use tungstenite::client::{ClientRequestBuilder, IntoClientRequest};
use tungstenite::protocol::{Role, WebSocket as TungsteniteSocket};
use tungstenite::Message;
use ureq_proto::http::{HeaderMap, Request};

const SERVER: TransportId = TransportId::Plain(SocketId(2));
const LISTENER: TransportId = TransportId::Plain(SocketId(3));
const OWNER: u32 = 8;

fn frame() -> Vec<u8> {
    // FIN + text, masked payload "hi" with mask [1, 2, 3, 4].
    vec![0x81, 0x82, 1, 2, 3, 4, b'h' ^ 1, b'i' ^ 2]
}

fn options() -> SocketOptions {
    SocketOptions {
        protocol: None,
        input_high_water: 4,
        input_low_water: 2,
        close_timeout_ms: 5_000,
    }
}

fn socket(tail: Vec<u8>) -> SharedSocket {
    SharedSocket::server(
        WebSocketId(1),
        OWNER,
        SERVER,
        tail,
        SocketLimits::default(),
        options(),
        true,
    )
    .unwrap()
}

fn text(next: RecvNext) -> String {
    match next {
        RecvNext::Message { message, .. } => message.to_text().unwrap().to_string(),
        _ => panic!("there is no message"),
    }
}

#[test]
fn partially_read_server_socket_consumes_frame_that_followed_headers() {
    let mut socket =
        TungsteniteSocket::from_partially_read(EventIo::default(), frame(), Role::Server, None);
    assert_eq!(socket.read().unwrap().to_text().unwrap(), "hi");
    let error = socket.read().unwrap_err();
    assert!(
        matches!(error, tungstenite::Error::Io(ref io) if io.kind() == ErrorKind::WouldBlock)
    );
}

#[test]
fn what_came_behind_the_request_is_read_first() {
    let mut shared = socket(frame());
    let next = shared.on_data(OWNER, Vec::new()).unwrap();
    assert!(!next.shutdown);
    assert_eq!(text(shared.recv(OWNER).unwrap()), "hi");
    assert!(matches!(shared.recv(OWNER).unwrap(), RecvNext::Wait));
    let next = shared.on_data(OWNER, frame()).unwrap();
    assert!(next.wake);
    assert_eq!(text(shared.recv(OWNER).unwrap()), "hi");
}

#[test]
fn only_its_owner_uses_a_socket() {
    let mut shared = socket(Vec::new());
    assert!(shared.check_owner(OWNER).is_ok());
    assert!(shared.check_owner(OWNER + 1).is_err());
    assert!(shared.recv(OWNER + 1).is_err());
    assert!(shared.send(OWNER + 1, Message::text("x")).is_err());
    assert!(shared.on_data(OWNER + 1, frame()).is_err());
    let unreachable = SharedSocket::server(
        WebSocketId(1),
        OWNER,
        SERVER,
        Vec::new(),
        SocketLimits::default(),
        options(),
        false,
    );
    assert!(matches!(unreachable, Err(HttpError::InvalidState(_))));
    assert_eq!(WebSocketId(9).raw(), 9);
}

#[test]
fn a_full_socket_is_paused_until_it_is_read() {
    let mut shared = socket(Vec::new());
    let mut three = frame();
    three.extend(frame());
    three.extend(frame());
    let next = shared.on_data(OWNER, three).unwrap();
    assert!(next.pause);
    let resumes: Vec<bool> = (0..3)
        .map(|_| match shared.recv(OWNER).unwrap() {
            RecvNext::Message { resume, .. } => resume,
            _ => panic!("there is a message"),
        })
        .collect();
    assert_eq!(resumes, vec![false, true, false]);
}

#[test]
fn messages_are_framed_and_the_end_is_told() {
    let mut shared = socket(Vec::new());
    let bytes = shared.send(OWNER, Message::text("yo")).unwrap();
    assert_eq!(bytes, vec![0x81, 2, b'y', b'o']);
    let bytes = shared.close(OWNER, None).unwrap();
    assert_eq!(bytes.unwrap()[0], 0x88);
    assert!(shared.close_overdue(5_000));
    assert!(!shared.close_overdue(4_999));

    let mut cut = socket(frame());
    cut.on_data(OWNER, Vec::new()).unwrap();
    cut.on_closed(Some("reset".into()));
    assert_eq!(text(cut.recv(OWNER).unwrap()), "hi");
    assert!(matches!(cut.recv(OWNER).unwrap(), RecvNext::Failed(_)));
    assert!(SocketLimits::default().usable());
}

fn upgrade() -> WebSocketUpgradeOptions {
    WebSocketUpgradeOptions::default()
}

#[test]
fn a_request_becomes_a_socket() {
    let mut server = HttpServer::default();
    server.insert_listener(LISTENER);
    server.accept(SERVER, LISTENER, "p".into(), false, true).unwrap();
    let mut bytes = b"GET /chat HTTP/1.1\r\nhost: a\r\nupgrade: websocket\r\nconnection: Upgrade\r\n\
                      sec-websocket-key: dGhlIHNhbXBsZSBub25jZQ==\r\nsec-websocket-version: 13\r\n\
                      sec-websocket-protocol: soap, chat\r\n\r\n"
        .to_vec();
    bytes.extend(frame());
    let requests = match server.data(SERVER, bytes) {
        DataNext::Requests { requests, .. } => requests,
        _ => panic!("a request came"),
    };
    let request = &requests[0].request;
    assert!(upgrade_response(request, &upgrade().with_protocol("mqtt".into())).is_err());
    let response = upgrade_response(request, &upgrade().with_protocol("chat".into())).unwrap();
    assert_eq!(response.len(), 4);
    assert_eq!(response["connection"], "Upgrade");
    assert_eq!(response["upgrade"], "websocket");
    assert_eq!(response["sec-websocket-accept"], "s3pPLMBiTxaQ9kYGzzhZRbK+xOo=");
    assert_eq!(response["sec-websocket-protocol"], "chat");
    assert_eq!(upgrade_response(request, &upgrade()).unwrap().len(), 3);
    let started = server.upgrade_websocket(SERVER, response).unwrap();
    assert!(started.data.starts_with(b"HTTP/1.1 101"));
    assert_eq!(started.tail, frame());
    server.serve_socket(SERVER, started.id).unwrap();
    match server.data(SERVER, vec![1]) {
        DataNext::Socket { id, data } => {
            assert_eq!(id, started.id);
            assert_eq!(data, vec![1]);
        }
        _ => panic!("it is a socket"),
    }
}

#[test]
fn protocols_are_looked_for_by_name() {
    assert!(holds_name("soap, chat", "chat"));
    assert!(!holds_name("soap, chatter", "chat"));
    assert_eq!(read_value(b"abc".to_vec()).as_deref(), Some("abc"));
    assert_eq!(read_value(vec![0x80]), None);
    let mut headers = HeaderMap::new();
    assert!(check_protocol(&headers, "chat").is_err());
    headers.insert("sec-websocket-protocol", "chat".parse().unwrap());
    assert!(check_protocol(&headers, "chat").is_ok());
    let mut bad = upgrade();
    bad.input_low_water = bad.input_high_water;
    assert!(bad.validate().is_err());
    assert!(upgrade().validate().is_ok());
    assert_eq!(upgrade().socket_options().close_timeout_ms, upgrade().close_timeout_ms);
}

fn parts(scheme: Option<&str>, host: Option<&str>, port: Option<u16>) -> UriParts {
    UriParts {
        scheme: scheme.map(String::from),
        host: host.map(String::from),
        port,
    }
}

#[test]
fn targets_are_secure_or_not() {
    let target = socket_target(&parts(Some("ws"), Some("h"), None)).unwrap();
    assert_eq!((target.secure, target.address.as_str()), (false, "h:80"));
    let target = socket_target(&parts(Some("wss"), Some("h"), None)).unwrap();
    assert_eq!((target.secure, target.address.as_str()), (true, "h:443"));
    let target = socket_target(&parts(Some("ws"), Some("h"), Some(9))).unwrap();
    assert_eq!(target.address, "h:9");
    assert!(matches!(
        socket_target(&parts(Some("http"), Some("h"), None)),
        Err(HttpError::UnsupportedScheme(_))
    ));
    assert!(matches!(
        socket_target(&parts(Some("ws"), None, None)),
        Err(HttpError::InvalidUri(_))
    ));
    assert!(matches!(
        socket_target(&parts(None, Some("h"), None)),
        Err(HttpError::InvalidUri(_))
    ));
}

#[test]
fn embedded_server_and_local_client_exchange_messages_without_http_client_service() {
    let mut server = HttpServer::default();
    server.insert_listener(LISTENER);
    server.accept(SERVER, LISTENER, "p".into(), false, true).unwrap();
    let mut client = WebSocketClient::default();
    let near = TransportId::Plain(SocketId(5));
    client.claim_owner(OWNER).unwrap();

    let request = ClientRequestBuilder::new("ws://127.0.0.1:80/socket".parse().unwrap())
        .with_header("Authorization", "Bearer integration-test")
        .with_sub_protocol("echo")
        .into_client_request()
        .unwrap();
    let hello = begun(client.begin(near, request)).1;
    assert!(matches!(client.poll(near), PollNext::Wait));

    let requests = match server.data(SERVER, hello) {
        DataNext::Requests { requests, .. } => requests,
        _ => panic!("a request came"),
    };
    let request = &requests[0].request;
    assert_eq!(request.headers()["Authorization"], "Bearer integration-test");
    let wanted = upgrade().with_protocol("echo".into());
    let response = upgrade_response(request, &wanted).unwrap();
    let started = server.upgrade_websocket(SERVER, response).unwrap();
    server.serve_socket(SERVER, started.id).unwrap();
    let mut far = SharedSocket::server(
        WebSocketId(started.id),
        OWNER + 1,
        SERVER,
        started.tail,
        SocketLimits::default(),
        wanted.socket_options(),
        true,
    )
    .unwrap();

    let next = shaken(client.on_data(near, OWNER, true, started.data));
    assert!(next.wake);
    let mut shared = next.opened.unwrap();
    match client.poll(near) {
        PollNext::Ready(Ok(response)) => assert_eq!(response.status, 101),
        _ => panic!("the server agreed"),
    }
    assert_eq!(shared.options.protocol.as_deref(), Some("echo"));

    let data = shared.send(OWNER, Message::text("hello websocket")).unwrap();
    let data = match server.data(SERVER, data) {
        DataNext::Socket { data, .. } => data,
        _ => panic!("it is a socket"),
    };
    far.on_data(OWNER + 1, data).unwrap();
    let message = match far.recv(OWNER + 1).unwrap() {
        RecvNext::Message { message, .. } => message,
        _ => panic!("there is a message"),
    };
    let back = far.send(OWNER + 1, message).unwrap();
    let back = match client.on_data(near, OWNER, true, back) {
        ClientData::Socket { data, .. } => data,
        _ => panic!("it is open"),
    };
    shared.on_data(OWNER, back).unwrap();
    assert_eq!(text(shared.recv(OWNER).unwrap()), "hello websocket");
    let closing = shared.close(OWNER, None).unwrap().unwrap();
    let next = far.on_data(OWNER + 1, closing).unwrap();
    assert!(!next.output.is_empty());
}

fn begun(next: BeginNext) -> (u64, Vec<u8>) {
    match next {
        BeginNext::Begun { generation, output } => (generation, output),
        BeginNext::Failed { .. } => panic!("a handshake can be started"),
    }
}

fn shaken(next: ClientData) -> HandshakeNext {
    match next {
        ClientData::Handshake(next) => next,
        _ => panic!("the handshake goes on"),
    }
}

fn request() -> Request<()> {
    "ws://127.0.0.1/chat".into_client_request().unwrap()
}

fn accepted() -> Shaken {
    Shaken::Done {
        socket: TungsteniteSocket::from_raw_socket(EventIo::default(), Role::Client, None),
        response: HandshakeResponse {
            status: 101,
            headers: HeaderMap::new(),
        },
    }
}

#[test]
fn a_handshake_comes_to_an_end() {
    let mut client = WebSocketClient::new(WebSocketClientConfig::default());
    assert!(client.claim_owner(OWNER).is_ok());
    assert!(client.claim_owner(OWNER).is_ok());
    assert!(client.claim_owner(OWNER + 1).is_err());
    let (generation, hello) = begun(client.begin(SERVER, request()));
    assert!(hello.starts_with(b"GET /chat HTTP/1.1\r\n"));
    assert!(client.handles(SERVER));
    assert!(matches!(client.poll(SERVER), PollNext::Wait));
    let next = shaken(client.on_data(SERVER, OWNER, true, b"HTTP/1.1 1".to_vec()));
    assert!(next.opened.is_none() && !next.wake && next.output.is_empty());
    let next = client.handshake_went(SERVER, OWNER, true, accepted());
    assert!(next.wake);
    let opened = next.opened.unwrap();
    assert!(matches!(client.poll(SERVER), PollNext::Ready(Ok(_))));
    match client.on_data(SERVER, OWNER, true, vec![2]) {
        ClientData::Socket { id, data } => {
            assert_eq!(id, opened.id);
            assert_eq!(data, vec![2]);
        }
        _ => panic!("it is open"),
    }
    assert!(client.handshake_timeout(SERVER, generation).is_none());
    client.disconnect(SERVER);
    assert!(!client.handles(SERVER));
    assert!(matches!(
        client.on_data(SERVER, OWNER, true, vec![3]),
        ClientData::Failed(HttpError::InvalidState(_))
    ));
}

#[test]
fn a_handshake_is_given_up() {
    let mut client = WebSocketClient::new(WebSocketClientConfig::default());
    let (generation, _) = begun(client.begin(SERVER, request()));
    assert!(client.handshake_timeout(SERVER, generation + 1).is_none());
    assert!(client.handshake_timeout(SERVER, generation).is_some());
    assert!(matches!(
        client.poll(SERVER),
        PollNext::Ready(Err(HttpError::Timeout(_)))
    ));

    let other = TransportId::Plain(SocketId(9));
    begun(client.begin(other, request()));
    let no = b"HTTP/1.1 404 Not Found\r\ncontent-length: 0\r\n\r\n".to_vec();
    assert!(shaken(client.on_data(other, OWNER, true, no)).opened.is_none());
    assert!(matches!(
        client.on_data(other, OWNER, true, vec![1]),
        ClientData::Failed(HttpError::InvalidState(_))
    ));
    assert!(matches!(
        client.poll(other),
        PollNext::Ready(Err(HttpError::WebSocket(_)))
    ));
    client.give_up(other);
    assert!(!client.handles(other));
    assert!(WebSocketClientConfig::default().validate().is_ok());
}

#[test]
fn a_request_that_opens_no_websocket_starts_no_handshake() {
    let mut client = WebSocketClient::default();
    let post = Request::builder().method("POST").uri("ws://h/").body(()).unwrap();
    match client.begin(SERVER, post) {
        BeginNext::Failed { error: HttpError::WebSocket(text), shutdown } => {
            assert!(!shutdown && !text.is_empty());
        }
        _ => panic!("it is no such request"),
    }
    assert!(!client.handles(SERVER));
}

#[test]
fn what_speaks_against_a_websocket_is_told_in_order() {
    let none = HeaderMap::new();
    let taken = || Ok(HeaderMap::new());
    let chat = upgrade().with_protocol("chat".into());
    assert!(matches!(
        upgrade_with(&none, taken(), &chat),
        Err(HttpError::Protocol(text)) if text.contains("子协议不在客户端候选列表中")
    ));
    assert!(matches!(
        upgrade_with(&none, Err("no key".into()), &upgrade()),
        Err(HttpError::WebSocket(text)) if text == "no key"
    ));
    assert_eq!(upgrade_with(&none, taken(), &upgrade()).unwrap().len(), 0);
    let mut offered = HeaderMap::new();
    offered.insert("sec-websocket-protocol", "mqtt, chat".parse().unwrap());
    let response = upgrade_with(&offered, taken(), &chat).unwrap();
    assert_eq!(response["sec-websocket-protocol"], "chat");
}
