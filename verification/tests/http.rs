//! HTTP: framing, the client, the server, and both together.

use rskynet::http::body::{
    collect_chunk, BodyRelease, BodySource, BodySpec, IncomingBody, OutgoingBody,
};
use rskynet::http::call::Proto;
use rskynet::http::client::{HttpClientService, StartRequest};
use rskynet::http::config::{HttpClientConfig, HttpServerConfig};
use rskynet::http::effect::{Answer, ClientOutput, Effect};
use rskynet::http::error::HttpError;
use rskynet::http::headers::apply_body_headers;
use rskynet::http::incoming::{plain_coming, secure_coming, Coming};
use rskynet::http::origin::{Origin, UriParts};
use rskynet::http::request::{serialize_request, Wire};
use rskynet::http::server::HttpServer;
use rskynet::http::start::{prepare, StartNext};
use rskynet::http::stream::EventIo;
use rskynet::http::traffic::{
    prepare_response, AcceptNext, DataNext, FinishNext, ServerResponse,
};
use rskynet::http::transport::{TlsEvent, TlsId, TransportId};
use rskynet::net::event::{SocketEvent, SocketId};
use rskynet::net::socket::Pending;
use std::io::{ErrorKind, Read, Write};
use ureq_proto::client::Call;
use ureq_proto::http::{header, HeaderMap, Request};

#[test]
fn body_spec_controls_framing_headers() {
    let mut fixed = HeaderMap::new();
    apply_body_headers(&mut fixed, BodySpec::Fixed(7)).unwrap();
    assert_eq!(fixed[header::CONTENT_LENGTH], "7");

    let mut chunked = HeaderMap::new();
    apply_body_headers(&mut chunked, BodySpec::Chunked).unwrap();
    assert_eq!(chunked[header::TRANSFER_ENCODING], "chunked");

    let mut conflict = HeaderMap::new();
    conflict.insert(header::CONTENT_LENGTH, "3".parse().unwrap());
    assert!(apply_body_headers(&mut conflict, BodySpec::Fixed(4)).is_err());
}

#[test]
fn headers_that_agree_are_left_alone() {
    let mut same = HeaderMap::new();
    same.insert(header::CONTENT_LENGTH, "4".parse().unwrap());
    apply_body_headers(&mut same, BodySpec::Fixed(4)).unwrap();
    assert_eq!(same.len(), 1);
    let mut chunked = HeaderMap::new();
    chunked.insert(header::TRANSFER_ENCODING, "Chunked".parse().unwrap());
    apply_body_headers(&mut chunked, BodySpec::Chunked).unwrap();
    assert_eq!(chunked.len(), 1);
    let mut more = HeaderMap::new();
    more.insert(header::TRANSFER_ENCODING, "gzip, chunked".parse().unwrap());
    assert!(apply_body_headers(&mut more, BodySpec::Chunked).is_err());
    let mut lengths = HeaderMap::new();
    lengths.insert(header::CONTENT_LENGTH, "4".parse().unwrap());
    assert!(apply_body_headers(&mut lengths, BodySpec::Chunked).is_err());
    let mut none = HeaderMap::new();
    apply_body_headers(&mut none, BodySpec::Empty).unwrap();
    assert_eq!(BodySpec::Empty.expected(), Some(0));
    assert_eq!(BodySpec::Chunked.expected(), None);
}

#[test]
fn request_headers_are_encoded_by_ureq_proto() {
    let request = Request::post("http://example.test/upload")
        .header("x-test", "yes")
        .body(())
        .unwrap();
    let mut prepare = Call::new(request).unwrap();
    prepare.header(header::CONTENT_LENGTH, "0").unwrap();
    let (bytes, proto) = serialize_request(prepare.proceed(), 4096).unwrap();
    let text = std::str::from_utf8(&bytes).unwrap();
    assert!(text.starts_with("POST /upload HTTP/1.1\r\n"));
    assert!(text.contains("host: example.test\r\n"));
    assert!(matches!(proto, Proto::SendBody(_) | Proto::RecvResponse(_)));
}

#[test]
fn a_head_that_is_too_long_is_refused() {
    let request = Request::get("http://example.test/long").body(()).unwrap();
    let call = Call::new(request).unwrap();
    match serialize_request(call.proceed(), 16) {
        Err(HttpError::Protocol(_)) => {}
        Err(other) => panic!("{other:?}"),
        Ok(_) => panic!("it fits"),
    }
}

#[test]
fn a_connect_has_to_name_an_authority() {
    let connect = |uri: &str| {
        let request = Request::builder().method("CONNECT").uri(uri).body(()).unwrap();
        serialize_request(Call::new(request).unwrap().proceed(), 4096)
    };
    match connect("/x") {
        Err(HttpError::Protocol(text)) => assert_eq!(text, "CONNECT 请求缺少 authority"),
        _ => panic!("there is nothing to connect to"),
    }
    let (bytes, _) = connect("example.test:443").unwrap();
    assert!(bytes.starts_with(b"CONNECT example.test:443 HTTP/1.1\r\n"));

    let bare = Request::get("/x").body(()).unwrap();
    let (bytes, _) = serialize_request(Call::new(bare).unwrap().proceed(), 4096).unwrap();
    assert!(bytes.starts_with(b"GET /x HTTP/1.1\r\n"));
}

#[test]
fn defaults_are_valid_and_watermarks_are_ordered() {
    HttpClientConfig::default().validate().unwrap();
    HttpServerConfig::default().validate().unwrap();
    let mut bad = HttpClientConfig::default();
    bad.input_low_water = bad.input_high_water;
    assert!(bad.validate().is_err());
}

#[test]
fn handles_only_owned_plain_events() {
    let mut server = HttpServer::default();
    let listener = SocketId(7);
    server.insert_listener(TransportId::Plain(listener));
    let peer = "127.0.0.1:12345".to_string();

    assert!(server.handles_socket(&SocketEvent::Accept {
        id: SocketId(8),
        listen: listener,
        peer: peer.clone(),
    }));
    assert!(server.handles_socket(&SocketEvent::Close { id: listener }));
    assert!(!server.handles_socket(&SocketEvent::Accept {
        id: SocketId(9),
        listen: SocketId(10),
        peer: peer.clone(),
    }));
    assert!(!server.handles_socket(&SocketEvent::Data {
        id: SocketId(10),
        data: Vec::new(),
    }));
    assert!(!server.handles_socket(&SocketEvent::Udp {
        id: listener,
        from: peer,
        data: Vec::new(),
    }));
}

#[test]
fn handles_only_owned_tls_events() {
    let mut server = HttpServer::default();
    let listener = TlsId(11);
    server.insert_listener(TransportId::Tls(listener));
    let peer = "127.0.0.1:12345".to_string();

    assert!(server.handles_tls(&TlsEvent::Connected {
        id: TlsId(12),
        listen: Some(listener),
        peer: peer.clone(),
    }));
    assert!(server.handles_tls(&TlsEvent::Close { id: listener }));
    assert!(!server.handles_tls(&TlsEvent::Connected {
        id: TlsId(13),
        listen: Some(TlsId(14)),
        peer,
    }));
    assert!(!server.handles_tls(&TlsEvent::Data {
        id: TlsId(14),
        data: Vec::new(),
    }));
}

#[test]
fn empty_event_io_is_nonblocking_not_eof() {
    let error = EventIo::default().read(&mut [0; 8]).unwrap_err();
    assert_eq!(error.kind(), ErrorKind::WouldBlock);
}

#[test]
fn bytes_are_read_in_the_order_they_came() {
    let mut io = EventIo::default();
    io.push_input(vec![1, 2, 3]);
    io.push_input(vec![4]);
    let mut two = [0; 2];
    assert_eq!(io.read(&mut two).unwrap(), 2);
    assert_eq!(two, [1, 2]);
    let mut many = [0; 8];
    let mut rest = Vec::new();
    while let Ok(count) = io.read(&mut many) {
        rest.extend_from_slice(&many[..count]);
    }
    assert_eq!(rest, vec![3, 4]);
    assert_eq!(io.write(b"out").unwrap(), 3);
    io.flush().unwrap();
    assert_eq!(io.take_output(), b"out");
    assert!(io.take_output().is_empty());
}

#[test]
fn origins_are_read_from_addresses() {
    let origin = Origin::from_uri("http://Example.TEST/x?y").unwrap();
    assert_eq!(origin.address(), "example.test:80");
    let secure = Origin::from_uri("https://example.test:8443/").unwrap();
    assert_eq!(secure.address(), "example.test:8443");
    assert!(!origin.same(&secure));
    assert!(origin.same(&Origin::from_uri("http://example.test:80/").unwrap()));
    assert!(matches!(
        Origin::from_uri("ftp://example.test/"),
        Err(HttpError::UnsupportedScheme(scheme)) if scheme == "ftp"
    ));
    assert!(matches!(Origin::from_uri("/only/a/path"), Err(HttpError::InvalidUri(_))));
    assert!(matches!(Origin::from_uri("http://a b/"), Err(HttpError::InvalidUri(_))));
    let parts = UriParts {
        scheme: Some("https".into()),
        host: Some("h".into()),
        port: None,
    };
    assert_eq!(Origin::from_parts(&parts).unwrap().address(), "h:443");
}

#[test]
fn bodies_are_collected_up_to_a_limit() {
    let mut all = Vec::new();
    collect_chunk(&mut all, &vec![1, 2], 3).unwrap();
    assert!(matches!(
        collect_chunk(&mut all, &vec![3, 4], 3),
        Err(HttpError::BackpressureLimit { actual: 4, limit: 3 })
    ));
    assert_eq!(all, vec![1, 2]);
    let mut body = IncomingBody::client(3, 9);
    assert!(matches!(
        body.next_chunk(),
        Ok(BodySource::Client { exchange: 3, source: 9 })
    ));
    assert_eq!(body.release(), BodyRelease::Cancel { exchange: 3, source: 9 });
    body.answered(&Ok(None));
    assert_eq!(body.release(), BodyRelease::Nothing);
    let mut outgoing = OutgoingBody::server(TransportId::Plain(SocketId(1)));
    assert!(outgoing.write_chunk().is_ok());
    assert_eq!(outgoing.finish(), Some(TransportId::Plain(SocketId(1))));
    assert!(outgoing.write_chunk().is_err());
    assert_eq!(outgoing.release(), None);
    assert!(OutgoingBody::finished().write_chunk().is_err());
}

#[test]
fn events_are_taken_for_what_they_are() {
    let data = SocketEvent::Data {
        id: SocketId(3),
        data: vec![1],
    };
    assert!(matches!(
        plain_coming(data),
        Coming::Data { transport: TransportId::Plain(SocketId(3)), .. }
    ));
    let gone = SocketEvent::Error {
        id: SocketId(3),
        reason: "r".into(),
    };
    assert!(matches!(plain_coming(gone), Coming::Closed { reason: Some(_), .. }));
    assert!(matches!(
        plain_coming(SocketEvent::Warning { id: SocketId(3), kilobytes: 1 }),
        Coming::Nothing
    ));
    assert!(matches!(
        secure_coming(TlsEvent::Close { id: TlsId(4) }),
        Coming::Closed { transport: TransportId::Tls(TlsId(4)), reason: None }
    ));
}

#[test]
fn errors_say_what_is_wrong() {
    assert!(HttpError::Protocol("x".into()).message().contains("x"));
    assert!(HttpError::Timeout("connect").message().contains("connect"));
    let mismatch = HttpError::BodyLengthMismatch {
        expected: 5,
        actual: 3,
    };
    assert!(mismatch.message().contains('5') && mismatch.message().contains('3'));
}

const CLIENT: TransportId = TransportId::Plain(SocketId(1));
const SERVER: TransportId = TransportId::Plain(SocketId(2));
const LISTENER: TransportId = TransportId::Plain(SocketId(3));

fn ask(session: u64) -> Pending {
    Pending {
        source: 40,
        session,
    }
}

fn request(method: &str, path: &str, spec: BodySpec) -> StartRequest {
    StartRequest {
        method: method.into(),
        uri: format!("http://example.test{path}"),
        headers: HeaderMap::new(),
        spec,
    }
}

/// Begins an exchange on a new connection, and hands back its number and the head of the request.
fn begin(
    client: &mut HttpClientService,
    token: u64,
    transport: TransportId,
    asked: StartRequest,
) -> (u64, Vec<u8>) {
    let mut out = ClientOutput::default();
    let next = client.start_exchange(token, true, ask(token), asked, &mut out);
    let next = match next {
        StartNext::Connect(prepared) => client.connected(prepared, Ok(transport), true, &mut out),
        other => other,
    };
    match next {
        StartNext::Send(opening) => {
            assert_eq!(opening.transport, transport);
            client.opened(opening.id, opening.pending, Ok(()), true, &mut out);
            client.confirm_start(token);
            (opening.id, opening.data)
        }
        _ => panic!("nothing is to be sent"),
    }
}

fn server() -> HttpServer {
    let mut server = HttpServer::default();
    server.insert_listener(LISTENER);
    match server.accept(SERVER, LISTENER, "peer".into(), false, true) {
        Ok(AcceptNext::Await { generation, after_ms }) => {
            assert_eq!(generation, 1);
            assert_eq!(after_ms, 30_000);
        }
        other => panic!("{other:?}"),
    }
    server
}

fn sent(wire: Wire) -> Vec<u8> {
    match wire {
        Wire::Send { data, .. } => data,
        Wire::Answer(_) => panic!("nothing is to be sent"),
    }
}

fn response(status: u16, spec: BodySpec) -> ServerResponse {
    ServerResponse {
        status,
        headers: HeaderMap::new(),
        spec,
    }
}

fn body(server: &mut HttpServer) -> Vec<u8> {
    let mut all = Vec::new();
    loop {
        match server.next_chunk(SERVER, 0).answer {
            Some(Ok(Some(chunk))) => all.extend(chunk),
            Some(Ok(None)) => return all,
            Some(Err(error)) => panic!("{error:?}"),
            None => panic!("more has to come"),
        }
    }
}

/// Reads the whole response of an exchange.
fn read(client: &mut HttpClientService, id: u64) -> (u16, Vec<u8>) {
    let mut out = ClientOutput::default();
    client.wait_response(ask(100), id, &mut out);
    let mut status = 0;
    for effect in out.effects {
        if let Effect::Reply { answer, .. } = effect {
            let (head, _) = answer.response().unwrap();
            status = head.status().as_u16();
        }
    }
    let mut all = Vec::new();
    loop {
        let mut out = ClientOutput::default();
        let Some(step) = client.next_body(ask(101), id, &mut out) else {
            panic!("the exchange is gone");
        };
        client.answer_body(step, &mut out);
        let mut ended = false;
        for effect in out.effects {
            if let Effect::Reply { answer, .. } = effect {
                match answer.chunk().unwrap() {
                    Some(chunk) => all.extend(chunk),
                    None => ended = true,
                }
            }
        }
        if ended {
            return (status, all);
        }
    }
}

#[test]
fn a_request_and_its_response_go_both_ways() {
    let mut client = HttpClientService::new(HttpClientConfig::default());
    let mut server = server();

    let (id, head) = begin(&mut client, 1, CLIENT, request("POST", "/echo", BodySpec::Fixed(5)));
    let text = String::from_utf8(head.clone()).unwrap();
    assert!(text.starts_with("POST /echo HTTP/1.1\r\n"));
    assert!(text.contains("content-length: 5\r\n"));

    let requests = match server.data(SERVER, head) {
        DataNext::Requests { requests, pause } => {
            assert!(!pause);
            requests
        }
        _ => panic!("a request came"),
    };
    assert_eq!(requests.len(), 1);
    assert_eq!(requests[0].request.uri().path(), "/echo");
    assert_eq!(requests[0].peer, "peer");
    assert!(server.next_chunk(SERVER, 0).answer.is_none());

    let chunk = sent(client.write_request(id, &b"hello".to_vec()));
    assert!(matches!(server.data(SERVER, chunk), DataNext::Requests { .. }));
    match client.finish_request(id) {
        Wire::Answer(answer) => answer.finished().unwrap(),
        Wire::Send { data, .. } => {
            server.data(SERVER, data);
        }
    }
    assert_eq!(body(&mut server), b"hello");

    let responded = server.respond(SERVER, response(200, BodySpec::Chunked)).unwrap();
    assert!(responded.body);
    let mut out = ClientOutput::default();
    client.on_data(CLIENT, responded.data, &mut out);
    for part in [b"wor".to_vec(), b"ld".to_vec()] {
        let data = server.write_chunk(SERVER, &part).unwrap().unwrap();
        client.on_data(CLIENT, data, &mut out);
    }
    let (data, close) = server.finish(SERVER).unwrap();
    assert!(!close);
    client.on_data(CLIENT, data, &mut out);
    match server.finish_response(SERVER, close) {
        FinishNext::Await { generation, buffered, .. } => {
            assert_eq!(generation, 2);
            assert!(!buffered);
        }
        other => panic!("{other:?}"),
    }
    assert_eq!(read(&mut client, id), (200, b"world".to_vec()));

    // The connection is used again.
    let (second, head) = begin(&mut client, 2, CLIENT, request("GET", "/again", BodySpec::Empty));
    assert_ne!(second, id);
    match server.data(SERVER, head) {
        DataNext::Requests { requests, .. } => {
            assert_eq!(requests[0].request.uri().path(), "/again")
        }
        _ => panic!("a request came"),
    }
    let responded = server.respond(SERVER, response(204, BodySpec::Empty)).unwrap();
    let mut out = ClientOutput::default();
    client.on_data(CLIENT, responded.data, &mut out);
    assert_eq!(read(&mut client, second).0, 204);
}

/// A client and a server that serves one path after the other.
struct World {
    client: HttpClientService,
    server: HttpServer,
    accepted: u32,
    token: u64,
    current: u64,
}

impl World {
    fn new(config: HttpClientConfig) -> World {
        let mut server = HttpServer::default();
        server.insert_listener(LISTENER);
        World {
            client: HttpClientService::new(config),
            server,
            accepted: 0,
            token: 0,
            current: 0,
        }
    }

    fn near(&self) -> TransportId {
        TransportId::Plain(SocketId(100 + self.accepted))
    }

    fn far(&self) -> TransportId {
        TransportId::Plain(SocketId(200 + self.accepted))
    }

    /// Starts an exchange, on a new connection where there has to be one.
    fn start(&mut self, asked: StartRequest) -> Option<u64> {
        self.token += 1;
        let token = self.token;
        let mut out = ClientOutput::default();
        let next = match self.client.start_exchange(token, true, ask(token), asked, &mut out) {
            StartNext::Connect(prepared) => {
                self.accepted += 1;
                let far = self.far();
                self.server.accept(far, LISTENER, "peer".into(), false, true).unwrap();
                let near = self.near();
                self.client.connected(prepared, Ok(near), true, &mut out)
            }
            other => other,
        };
        let StartNext::Send(opening) = next else {
            return None;
        };
        assert_eq!(opening.transport, self.near());
        self.client.opened(opening.id, opening.pending, Ok(()), true, &mut out);
        self.client.confirm_start(token);
        self.to_server(opening.data);
        self.current = opening.id;
        Some(opening.id)
    }

    fn to_server(&mut self, data: Vec<u8>) {
        let far = self.far();
        assert!(matches!(self.server.data(far, data), DataNext::Requests { .. }));
    }

    fn to_client(&mut self, data: Vec<u8>) -> ClientOutput {
        let near = self.near();
        let mut out = ClientOutput::default();
        let next = self.client.on_data(near, data, &mut out);
        if let Some(job) = next.job {
            let chunk = sent(self.client.write_request(self.current, &job.chunk));
            self.to_server(chunk);
        }
        out
    }

    fn write(&mut self, id: u64, chunk: Vec<u8>) {
        let data = sent(self.client.write_request(id, &chunk));
        self.to_server(data);
    }

    fn finish(&mut self, id: u64) {
        if let Wire::Send { data, .. } = self.client.finish_request(id) {
            self.to_server(data);
        }
    }

    /// The body of the request, as the server got it.
    fn uploaded(&mut self) -> Vec<u8> {
        let far = self.far();
        let mut all = Vec::new();
        while let Some(Ok(Some(chunk))) = self.server.next_chunk(far, 0).answer {
            all.extend(chunk);
        }
        all
    }

    /// Sends a response, and hands back what the client does about its head.
    fn respond(&mut self, status: u16, spec: BodySpec, bytes: Vec<u8>) -> ClientOutput {
        let far = self.far();
        let responded = self.server.respond(far, response(status, spec)).unwrap();
        let out = self.to_client(responded.data);
        let mut close = responded.close;
        if responded.body {
            if let Some(data) = self.server.write_chunk(far, &bytes).unwrap() {
                self.to_client(data);
            }
            let (data, closes) = self.server.finish(far).unwrap();
            self.to_client(data);
            close = closes;
        }
        match self.server.finish_response(far, close) {
            FinishNext::Await { .. } => {}
            _ => {
                let near = self.near();
                self.client.on_closed(near, false, &mut ClientOutput::default());
            }
        }
        out
    }
}

#[test]
fn streams_requests_responses_and_reuses_plain_connection() {
    let config = HttpClientConfig {
        input_high_water: 128,
        input_low_water: 64,
        max_chunk_size: 64,
        max_header_size: 256,
        max_connections: 1,
        max_connections_per_origin: 1,
        max_idle_connections: 1,
        max_idle_connections_per_origin: 1,
        ..HttpClientConfig::default()
    };
    config.validate().unwrap();
    let mut world = World::new(config);
    let mut responses = Vec::new();

    for body in [b"first".to_vec(), b"second".to_vec()] {
        let spec = BodySpec::Fixed(body.len() as u64);
        let id = world.start(request("POST", "/echo", spec)).unwrap();
        world.write(id, body);
        world.finish(id);
        let bytes = world.uploaded();
        world.respond(200, BodySpec::Fixed(bytes.len() as u64), bytes);
        responses.push(read(&mut world.client, id).1);
    }

    let id = world.start(request("GET", "/large", BodySpec::Empty)).unwrap();
    world.respond(200, BodySpec::Fixed(512), vec![b'x'; 512]);
    responses.push(read(&mut world.client, id).1);

    let mut asked = request("POST", "/continue", BodySpec::Fixed(9));
    asked.headers.insert(header::EXPECT, "100-continue".parse().unwrap());
    let id = world.start(asked).unwrap();
    let mut out = ClientOutput::default();
    let waiting = world.client.defer_continue_write(ask(60), id, b"continued".to_vec(), &mut out);
    assert!(waiting.is_none());
    let far = world.far();
    let leave = world.server.ensure_continue(far).unwrap().unwrap();
    world.to_client(leave);
    world.finish(id);
    let bytes = world.uploaded();
    world.respond(200, BodySpec::Fixed(bytes.len() as u64), bytes);
    responses.push(read(&mut world.client, id).1);

    let mut asked = request("POST", "/reject", BodySpec::Fixed(8));
    asked.headers.insert(header::EXPECT, "100-continue".parse().unwrap());
    let id = world.start(asked).unwrap();
    let waiting = world.client.defer_continue_write(ask(61), id, b"rejected".to_vec(), &mut out);
    assert!(waiting.is_none());
    let out = world.respond(417, BodySpec::Empty, Vec::new());
    let mut rejected = false;
    for effect in out.effects {
        if let Effect::Reply { pending, answer } = effect {
            assert_eq!(pending.session, 61);
            rejected |= matches!(answer, Answer::Failed(HttpError::RequestBodyRejected));
        }
    }
    assert!(rejected);
    assert_eq!(read(&mut world.client, id).0, 417);
    responses.push(b"rejected".to_vec());

    // One start holds the only connection, a second waits and is given up, a third goes on.
    let held = world.start(request("GET", "/large", BodySpec::Empty)).unwrap();
    assert!(world.start(request("GET", "/echo", BodySpec::Empty)).is_none());
    let queued = world.token;
    world.respond(200, BodySpec::Fixed(512), vec![b'x'; 512]);
    read(&mut world.client, held);
    assert!(world.client.wake_queued(&vec![queued]).is_none());
    let id = world.start(request("GET", "/echo", BodySpec::Empty)).unwrap();
    world.respond(200, BodySpec::Fixed(5), b"empty".to_vec());
    responses.push(read(&mut world.client, id).1);

    assert_eq!(
        responses,
        vec![
            b"first".to_vec(),
            b"second".to_vec(),
            vec![b'x'; 512],
            b"continued".to_vec(),
            b"rejected".to_vec(),
            b"empty".to_vec(),
        ]
    );
    assert_eq!(world.accepted, 2);
}

#[test]
fn coalesced_body_and_pipelined_request_are_processed_without_more_input() {
    let config = HttpServerConfig {
        max_header_size: 256,
        ..HttpServerConfig::default()
    };
    let mut server = HttpServer::new(config);
    server.insert_listener(LISTENER);
    server.accept(SERVER, LISTENER, "peer".into(), false, true).unwrap();
    let mut both =
        b"POST /echo HTTP/1.1\r\nHost: 127.0.0.1\r\nContent-Length: 1024\r\n\r\n".to_vec();
    both.extend(vec![b'a'; 1024]);
    both.extend_from_slice(b"GET /second HTTP/1.1\r\nHost: 127.0.0.1\r\n\r\n");
    let first = match server.data(SERVER, both) {
        DataNext::Requests { requests, .. } => requests,
        _ => panic!("a request came"),
    };
    let mut served: Vec<String> =
        first.iter().map(|r| r.request.uri().path().to_string()).collect();
    assert_eq!(body(&mut server), vec![b'a'; 1024]);
    server.respond(SERVER, response(200, BodySpec::Fixed(1024))).unwrap();
    server.write_chunk(SERVER, &vec![b'a'; 1024]).unwrap();
    let (_, close) = server.finish(SERVER).unwrap();
    match server.finish_response(SERVER, close) {
        FinishNext::Await { buffered, .. } => assert!(buffered),
        other => panic!("{other:?}"),
    }
    let processed = server.process(SERVER);
    assert!(processed.failed.is_none());
    served.extend(processed.requests.iter().map(|r| r.request.uri().path().to_string()));
    assert_eq!(served, vec!["/echo".to_string(), "/second".to_string()]);
    let second = server.respond(SERVER, response(200, BodySpec::Fixed(5))).unwrap();
    assert!(second.data.starts_with(b"HTTP/1.1 200"));
}

#[test]
fn a_body_has_the_length_that_was_announced() {
    let mut client = HttpClientService::new(HttpClientConfig::default());
    let (id, _) = begin(&mut client, 1, CLIENT, request("POST", "/", BodySpec::Fixed(3)));
    match client.write_request(id, &vec![0; 4]) {
        Wire::Answer(Answer::Failed(HttpError::Protocol(_))) => {}
        _ => panic!("it is too long"),
    }
    match client.finish_request(id) {
        Wire::Answer(Answer::Failed(HttpError::BodyLengthMismatch { expected, actual })) => {
            assert_eq!((expected, actual), (3, 0))
        }
        _ => panic!("it is too short"),
    }
    let mut server = server();
    server.data(SERVER, b"GET / HTTP/1.1\r\nhost: a\r\n\r\n".to_vec());
    server.respond(SERVER, response(200, BodySpec::Fixed(2))).unwrap();
    server.write_chunk(SERVER, &vec![0; 1]).unwrap();
    assert!(matches!(
        server.finish(SERVER),
        Err(HttpError::BodyLengthMismatch { expected: 2, actual: 1 })
    ));
    assert!(matches!(
        server.write_chunk(SERVER, &vec![0; 3]),
        Err(HttpError::Protocol(_))
    ));
}

#[test]
fn a_client_waits_for_leave_and_then_not() {
    let mut client = HttpClientService::new(HttpClientConfig::default());
    let mut asked = request("POST", "/", BodySpec::Fixed(2));
    asked.headers.insert(header::EXPECT, "100-continue".parse().unwrap());
    let mut out = ClientOutput::default();
    let next = client.start_exchange(1, true, ask(1), asked, &mut out);
    let StartNext::Connect(prepared) = next else {
        panic!("a connection is to be made");
    };
    let StartNext::Send(opening) = client.connected(prepared, Ok(CLIENT), true, &mut out) else {
        panic!("a head is to be sent");
    };
    let id = opening.id;
    client.opened(id, opening.pending, Ok(()), true, &mut out);
    assert!(out.effects.iter().any(|effect| matches!(
        effect,
        Effect::ContinueTimeout { after_ms: 1_000, .. }
    )));
    // The server gives leave.
    let mut server = server();
    server.data(SERVER, opening.data);
    let leave = server.ensure_continue(SERVER).unwrap().unwrap();
    assert!(leave.starts_with(b"HTTP/1.1 100"));
    let mut out = ClientOutput::default();
    client.on_data(CLIENT, leave, &mut out);
    let chunk = sent(client.write_request(id, &b"ok".to_vec()));
    assert!(chunk.ends_with(b"ok"));

    // Or it does not, in time.
    let mut late = HttpClientService::new(HttpClientConfig::default());
    let mut asked = request("POST", "/", BodySpec::Fixed(2));
    asked.headers.insert(header::EXPECT, "100-continue".parse().unwrap());
    let (id, _) = begin(&mut late, 1, CLIENT, asked);
    let mut out = ClientOutput::default();
    assert!(late.defer_continue_write(ask(5), id, b"ok".to_vec(), &mut out).is_none());
    let next = late.continue_timeout(id, &mut out);
    assert_eq!(next.job.unwrap().chunk, b"ok".to_vec());
}

#[test]
fn starts_wait_for_a_connection() {
    let mut config = HttpClientConfig::default();
    config.max_connections = 1;
    config.max_connections_per_origin = 1;
    config.max_idle_connections = 1;
    config.max_idle_connections_per_origin = 1;
    let mut client = HttpClientService::new(config);
    let (id, _) = begin(&mut client, 1, CLIENT, request("GET", "/", BodySpec::Empty));
    let mut out = ClientOutput::default();
    let asked = request("GET", "/later", BodySpec::Empty);
    let next = client.start_exchange(2, true, ask(2), asked, &mut out);
    assert!(matches!(next, StartNext::Done));
    assert_eq!(client.waiting.len(), 1);
    assert!(client.wake_queued(&vec![]).is_none());

    let mut out = ClientOutput::default();
    client.cancel(id, &mut out);
    assert!(out.effects.iter().any(|e| matches!(e, Effect::Shutdown(t) if *t == CLIENT)));
    assert!(out.effects.iter().any(|e| matches!(e, Effect::Wake)));
    let woken = client.wake_queued(&vec![]).unwrap();
    assert_eq!(woken.token, 2);
    assert_eq!(woken.request.uri, "http://example.test/later");
}

#[test]
fn a_connection_that_cannot_be_made_is_answered() {
    let mut client = HttpClientService::new(HttpClientConfig::default());
    let mut out = ClientOutput::default();
    let asked = request("GET", "/", BodySpec::Empty);
    let StartNext::Connect(prepared) = client.start_exchange(1, true, ask(7), asked, &mut out)
    else {
        panic!("a connection is to be made");
    };
    let failed = Err(HttpError::Transport("refused".into()));
    let next = client.connected(prepared, failed, true, &mut out);
    assert!(matches!(next, StartNext::Done));
    let mut failures = 0;
    for effect in out.effects {
        if let Effect::Reply { pending, answer } = effect {
            assert_eq!(pending.session, 7);
            assert!(matches!(answer.started(), Err(HttpError::Transport(_))));
            failures += 1;
        }
    }
    assert_eq!(failures, 1);
    let mut out = ClientOutput::default();
    let odd = request("GET", "/", BodySpec::Empty);
    let odd = StartRequest {
        uri: "ftp://example.test/".into(),
        ..odd
    };
    assert!(matches!(
        client.start_exchange(2, true, ask(8), odd, &mut out),
        StartNext::Done
    ));
    assert_eq!(out.effects.len(), 2);
    assert!(matches!(out.effects[0], Effect::Reply { .. }));
    assert!(matches!(out.effects[1], Effect::Wake));
}

#[test]
fn a_lost_connection_breaks_the_exchange() {
    let mut client = HttpClientService::new(HttpClientConfig::default());
    let (id, _) = begin(&mut client, 1, CLIENT, request("GET", "/", BodySpec::Empty));
    let mut out = ClientOutput::default();
    client.wait_response(ask(3), id, &mut out);
    assert!(out
        .effects
        .iter()
        .any(|e| matches!(e, Effect::WaitTimeout { after_ms: 30_000, body: false, .. })));
    let mut out = ClientOutput::default();
    client.on_closed(CLIENT, false, &mut out);
    let mut failed = false;
    for effect in out.effects {
        if let Effect::Reply { answer, .. } = effect {
            failed |= answer.response().is_err();
        }
    }
    assert!(failed);
}

#[test]
fn a_response_may_last_until_the_end_of_its_connection() {
    let mut client = HttpClientService::new(HttpClientConfig::default());
    let (id, _) = begin(&mut client, 1, CLIENT, request("GET", "/", BodySpec::Empty));
    let mut out = ClientOutput::default();
    client.on_data(CLIENT, b"HTTP/1.1 200 OK\r\n\r\nall of".to_vec(), &mut out);
    client.on_data(CLIENT, b" it".to_vec(), &mut out);
    client.on_closed(CLIENT, false, &mut out);
    assert_eq!(read(&mut client, id), (200, b"all of it".to_vec()));
}

#[test]
fn a_server_gives_up_on_silence_and_nonsense() {
    let mut server = server();
    assert!(!server.header_timeout(SERVER, 0));
    assert!(server.header_timeout(SERVER, 1));
    assert!(!server.owns(SERVER));

    let mut server = self::server();
    match server.data(SERVER, b"nonsense\r\n\r\n".to_vec()) {
        DataNext::Failed(HttpError::Protocol(_)) => {}
        _ => panic!("that is no request"),
    }

    let mut server = self::server();
    server.data(
        SERVER,
        b"POST / HTTP/1.1\r\nhost: a\r\ncontent-length: 9\r\n\r\n".to_vec(),
    );
    assert!(server.next_chunk(SERVER, 29_999).answer.is_none());
    let step = server.next_chunk(SERVER, 30_000);
    assert!(step.late);
    assert!(matches!(step.answer, Some(Err(HttpError::Timeout("server body idle")))));
    assert!(matches!(
        server.next_chunk(SERVER, 0).answer,
        Some(Err(HttpError::BodyClosed))
    ));
}

#[test]
fn listeners_are_known_by_number() {
    let mut server = HttpServer::default();
    let id = server.insert_listener(LISTENER);
    assert_eq!(server.listener_transport(id).unwrap(), LISTENER);
    server.remove_listener(LISTENER);
    assert!(server.listener_transport(id).is_err());
    assert!(matches!(
        server.accept(SERVER, LISTENER, "p".into(), false, true),
        Ok(AcceptNext::Nothing)
    ));
    assert_ne!(CLIENT.key(), TransportId::Tls(TlsId(1)).key());
}

#[test]
fn a_server_gives_leave_once() {
    let mut server = server();
    let head = b"POST /up HTTP/1.1\r\nhost: h\r\ncontent-length: 3\r\nexpect: 100-continue\r\n\r\n";
    assert!(matches!(
        server.data(SERVER, head.to_vec()),
        DataNext::Requests { requests, pause: false } if requests.len() == 1
    ));
    let leave = server.ensure_continue(SERVER).unwrap();
    assert_eq!(leave.as_deref(), Some(&b"HTTP/1.1 100 Continue\r\n\r\n"[..]));
    assert!(server.ensure_continue(SERVER).unwrap().is_none());
    assert!(matches!(
        server.data(SERVER, b"abc".to_vec()),
        DataNext::Requests { requests, .. } if requests.is_empty()
    ));
    assert_eq!(body(&mut server), b"abc");
    assert!(matches!(server.ensure_continue(CLIENT), Err(HttpError::BodyClosed)));
}

#[test]
fn a_status_has_three_digits() {
    for status in [100, 200, 999] {
        assert!(prepare_response(response(status, BodySpec::Empty)).is_ok());
    }
    for status in [0, 99, 1000] {
        match prepare_response(response(status, BodySpec::Empty)) {
            Err(HttpError::Protocol(text)) => assert_eq!(text, "invalid status code"),
            other => panic!("{:?}", other.is_ok()),
        }
    }
}

#[test]
fn a_request_needs_a_method_and_an_address() {
    assert!(prepare(request("GET", "/", BodySpec::Empty)).is_ok());
    assert!(matches!(
        prepare(request("G T", "/", BodySpec::Empty)),
        Err(HttpError::Protocol(text)) if text == "invalid HTTP method"
    ));
    assert!(matches!(
        prepare(request("GET", "/a b", BodySpec::Empty)),
        Err(HttpError::Protocol(text)) if text == "invalid uri character"
    ));
}

#[test]
fn bytes_that_are_no_request_are_an_error() {
    let mut server = server();
    assert!(matches!(
        server.data(SERVER, b"GET / HTTP/9.9\r\n\r\n".to_vec()),
        DataNext::Failed(HttpError::Protocol(_))
    ));
}
