//! WebSockets from the client's side: connections that are being made, and those that are open.

use crate::http::client::next_number;
#[allow(unused_imports)]
use crate::http::client::following;
use crate::http::error::HttpError;
#[allow(unused_imports)]
use crate::http::error::HttpErrorView;
use crate::http::handshake::{shake, start_handshake, HandshakeResponse, Handshaking, Shaken};
#[allow(unused_imports)]
use crate::http::handshake::{
    handshake_emptied, handshake_fed, handshake_started, handshake_stream, shaken,
};
use crate::http::headers::every_header;
#[allow(unused_imports)]
use crate::http::headers::lower_name;
use crate::http::origin::{address, UriParts};
#[allow(unused_imports)]
use crate::http::origin::{address_of, optional, UriPartsView};
use crate::http::socket::{SharedSocket, SocketLimits, SocketOptions, WebSocketId};
#[allow(unused_imports)]
use crate::http::socket::SocketView;
use crate::http::transport::TransportId;
use crate::http::upgrade::{read_value, PROTOCOL};
#[allow(unused_imports)]
use crate::http::upgrade::{value_text, values_of};
use crate::text::same_text;
use std::collections::HashMap;
#[allow(unused_imports)]
use ureq_proto::http::HeaderMap;
use ureq_proto::http::Request as HttpRequest;
use vstd::prelude::*;

verus! {

broadcast use vstd::std_specs::hash::group_hash_axioms;

/// How WebSockets that are opened behave. Times are in milliseconds, sizes in bytes.
#[derive(Debug)]
pub struct WebSocketClientConfig {
    pub connect_timeout_ms: u64,
    pub handshake_timeout_ms: u64,
    pub close_timeout_ms: u64,
    pub input_high_water: usize,
    pub input_low_water: usize,
    pub websocket: SocketLimits,
}

impl WebSocketClientConfig {
    /// What is wrong with the values.
    pub open spec fn fault(self) -> Option<HttpErrorView> {
        if self.connect_timeout_ms > 0 && self.handshake_timeout_ms > 0 && self.close_timeout_ms > 0
            && 0 < self.input_low_water < self.input_high_water {
            None
        } else {
            Some(HttpErrorView::Config("WebSocket 客户端配置无效"@))
        }
    }

    /// Whether the values can be used.
    pub fn validate(&self) -> (result: Result<(), HttpError>)
        ensures
            result is Ok <==> self.fault() is None,
            result matches Err(error) ==> Some(error@) == self.fault(),
    {
        if self.connect_timeout_ms == 0 || self.handshake_timeout_ms == 0 || self.close_timeout_ms
            == 0 || self.input_low_water == 0 || self.input_low_water >= self.input_high_water {
            return Err(HttpError::Config("WebSocket 客户端配置无效".to_owned()));
        }
        Ok(())
    }
}

impl Default for WebSocketClientConfig {
    fn default() -> (config: WebSocketClientConfig)
        ensures
            config == (WebSocketClientConfig {
                connect_timeout_ms: 10_000,
                handshake_timeout_ms: 30_000,
                close_timeout_ms: 5_000,
                input_high_water: 262_144,
                input_low_water: 131_072,
                websocket: SocketLimits::usual(),
            }),
            config.fault() is None,
    {
        WebSocketClientConfig {
            connect_timeout_ms: 10_000,
            handshake_timeout_ms: 30_000,
            close_timeout_ms: 5_000,
            input_high_water: 262_144,
            input_low_water: 131_072,
            websocket: SocketLimits::default(),
        }
    }
}

/// Where a WebSocket is opened to.
#[derive(Debug)]
pub struct SocketTarget {
    pub secure: bool,
    pub host: String,
    pub address: String,
}

/// What a [`SocketTarget`] says: whether it is secure, the host and the address.
pub open spec fn target_view(target: Result<SocketTarget, HttpError>) -> Result<
    (bool, Seq<char>, Seq<char>),
    HttpErrorView,
> {
    match target {
        Ok(target) => Ok((target.secure, target.host@, target.address@)),
        Err(error) => Err(error@),
    }
}

impl UriPartsView {
    /// Where a WebSocket to the address is opened to, or why it is not.
    pub open spec fn socket_target(self) -> Result<(bool, Seq<char>, Seq<char>), HttpErrorView> {
        match self.host {
            None => Err(HttpErrorView::InvalidUri("缺少 host"@)),
            Some(host) => match self.scheme {
                None => Err(HttpErrorView::InvalidUri("缺少 scheme"@)),
                Some(scheme) => if scheme != "ws"@ && scheme != "wss"@ {
                    Err(HttpErrorView::UnsupportedScheme(scheme))
                } else {
                    let secure = scheme == "wss"@;
                    let port: u16 = match self.port {
                        Some(port) => port,
                        None => if secure {
                            443
                        } else {
                            80
                        },
                    };
                    Ok((secure, host, address_of(host, port)))
                },
            },
        }
    }
}

/// Where a WebSocket to an address is opened to.
pub fn socket_target(parts: &UriParts) -> (target: Result<SocketTarget, HttpError>)
    ensures
        target_view(target) == parts@.socket_target(),
{
    let host = match &parts.host {
        None => {
            return Err(HttpError::InvalidUri("缺少 host".to_owned()));
        },
        Some(host) => host,
    };
    let scheme = match &parts.scheme {
        None => {
            return Err(HttpError::InvalidUri("缺少 scheme".to_owned()));
        },
        Some(scheme) => scheme,
    };
    let secure = same_text(scheme.as_str(), "wss");
    if !secure && !same_text(scheme.as_str(), "ws") {
        return Err(HttpError::UnsupportedScheme(scheme.clone()));
    }
    let port: u16 = match parts.port {
        Some(port) => port,
        None => if secure {
            443
        } else {
            80
        },
    };
    let address = address(host.as_str(), port);
    Ok(SocketTarget { secure, host: host.clone(), address })
}

/// A WebSocket that is being opened.
pub struct PendingHandshake {
    /// The handshake, while it is under way and nobody works on it.
    pub handshake: Option<Handshaking>,
    /// What came of it, until whoever opens the WebSocket has seen that.
    pub result: Option<Result<HandshakeResponse, HttpError>>,
    /// Whether somebody waits for that.
    pub waiting: bool,
    pub generation: u64,
}

/// What a [`PendingHandshake`] holds.
#[verifier::ext_equal]
pub struct PendingHandshakeView {
    pub handshake: Option<Handshaking>,
    pub result: Option<Result<HandshakeResponse, HttpErrorView>>,
    pub waiting: bool,
    pub generation: u64,
}

/// What the result of a handshake says.
pub open spec fn handshake_view(result: Result<HandshakeResponse, HttpError>) -> Result<
    HandshakeResponse,
    HttpErrorView,
> {
    match result {
        Ok(response) => Ok(response),
        Err(error) => Err(error@),
    }
}

impl View for PendingHandshake {
    type V = PendingHandshakeView;

    open spec fn view(&self) -> PendingHandshakeView {
        PendingHandshakeView {
            handshake: self.handshake,
            result: match self.result {
                Some(result) => Some(handshake_view(result)),
                None => None,
            },
            waiting: self.waiting,
            generation: self.generation,
        }
    }
}

/// The WebSockets that a service opens.
pub struct WebSocketClient {
    /// The service that was the first to use it.
    pub owner: Option<u32>,
    pub config: WebSocketClientConfig,
    pub next_id: u64,
    pub next_generation: u64,
    /// Those that are being opened, by the numbers of their transports.
    pub pending: HashMap<u128, PendingHandshake>,
    /// Those that are open, by the numbers of their transports.
    pub connected: HashMap<u128, WebSocketId>,
}

/// What a [`WebSocketClient`] holds.
#[verifier::ext_equal]
pub struct WebSocketsView {
    pub owner: Option<u32>,
    pub config: WebSocketClientConfig,
    pub next_id: u64,
    pub next_generation: u64,
    pub pending: Map<u128, PendingHandshakeView>,
    pub connected: Map<u128, WebSocketId>,
}

impl View for WebSocketClient {
    type V = WebSocketsView;

    open spec fn view(&self) -> WebSocketsView {
        WebSocketsView {
            owner: self.owner,
            config: self.config,
            next_id: self.next_id,
            next_generation: self.next_generation,
            pending: self.pending@.map_values(|p: PendingHandshake| p@),
            connected: self.connected@,
        }
    }
}

impl WebSocketsView {
    /// Before any WebSocket was opened.
    pub open spec fn empty(config: WebSocketClientConfig) -> WebSocketsView {
        WebSocketsView {
            owner: None,
            config,
            next_id: 0,
            next_generation: 0,
            pending: Map::empty(),
            connected: Map::empty(),
        }
    }

    /// Whether a WebSocket on a transport is being opened.
    pub open spec fn opens(self, transport: TransportId) -> bool {
        self.pending.dom().contains(transport.number())
    }

    /// Whether a WebSocket on a transport is open.
    pub open spec fn open_on(self, transport: TransportId) -> bool {
        self.connected.dom().contains(transport.number())
    }

    /// The handshake on a transport.
    pub open spec fn at(self, transport: TransportId) -> PendingHandshakeView {
        self.pending[transport.number()]
    }

    /// With a handshake in another state.
    pub open spec fn with(
        self,
        transport: TransportId,
        pending: PendingHandshakeView,
    ) -> WebSocketsView {
        WebSocketsView { pending: self.pending.insert(transport.number(), pending), ..self }
    }

    /// Without a handshake.
    pub open spec fn without(self, transport: TransportId) -> WebSocketsView {
        WebSocketsView { pending: self.pending.remove(transport.number()), ..self }
    }

    /// A handshake begins.
    pub open spec fn began(self, transport: TransportId, handshake: Handshaking) -> WebSocketsView {
        let generation = following(self.next_generation);
        WebSocketsView {
            next_generation: generation,
            pending: self.pending.insert(
                transport.number(),
                PendingHandshakeView {
                    handshake: Some(handshake),
                    result: None,
                    waiting: false,
                    generation,
                },
            ),
            ..self
        }
    }

    /// A handshake has come to an end.
    pub open spec fn ended(
        self,
        transport: TransportId,
        result: Result<HandshakeResponse, HttpErrorView>,
    ) -> WebSocketsView {
        if self.opens(transport) {
            self.with(
                transport,
                PendingHandshakeView {
                    result: Some(result),
                    waiting: false,
                    ..self.at(transport)
                },
            )
        } else {
            self
        }
    }

    /// Whether somebody who waits for a handshake is to be told of its end.
    pub open spec fn awaited(self, transport: TransportId) -> bool {
        self.opens(transport) && self.at(transport).waiting
    }

    /// Whether a handshake that began under a number is overdue.
    pub open spec fn overdue(self, transport: TransportId, generation: u64) -> bool {
        &&& self.opens(transport)
        &&& self.at(transport).generation == generation
        &&& self.at(transport).result is None
    }

    /// A transport is gone.
    pub open spec fn closed(self, transport: TransportId, reason: Option<Seq<char>>) -> WebSocketsView {
        (WebSocketsView { connected: self.connected.remove(transport.number()), ..self }).ended(
            transport,
            Err(
                HttpErrorView::Transport(
                    match reason {
                        Some(reason) => reason,
                        None => "连接已关闭"@,
                    },
                ),
            ),
        )
    }
}

/// What whoever opens a WebSocket is told.
pub enum PollNext {
    Ready(Result<HandshakeResponse, HttpError>),
    Wait,
}

/// What the start of a handshake leads to.
pub enum BeginNext {
    /// It is under way under a number, and these bytes are to be sent for it.
    Begun { generation: u64, output: Vec<u8> },
    /// It is not, and the connection is to be closed or not.
    Failed { error: HttpError, shutdown: bool },
}

/// What bytes that came in lead to.
pub enum ClientData {
    /// They are those of an open WebSocket.
    Socket { id: WebSocketId, data: Vec<u8> },
    /// A handshake went on with them.
    Handshake(HandshakeNext),
    Failed(HttpError),
}

/// What going on with a handshake leads to.
pub struct HandshakeNext {
    /// A WebSocket that is open now.
    pub opened: Option<SharedSocket>,
    /// Whether somebody who waits is to be told.
    pub wake: bool,
    /// What is to be sent.
    pub output: Vec<u8>,
}

/// The name of the header with which extensions are chosen.
pub const EXTENSIONS: &'static str = "sec-websocket-extensions";

/// The protocol that a server chose.
pub open spec fn chosen_protocol(headers: HeaderMap) -> Option<Seq<char>> {
    let values = values_of(headers, PROTOCOL@);
    if values.len() > 0 {
        value_text(values[0])
    } else {
        None
    }
}

impl WebSocketsView {
    /// Why a handshake that succeeded is not accepted. `reachable` says whether the transport's
    /// service is there.
    pub open spec fn refusal(self, response: HandshakeResponse, reachable: bool) -> Option<
        HttpErrorView,
    > {
        if values_of(response.headers, EXTENSIONS@).len() > 0 {
            Some(HttpErrorView::Protocol("服务端返回了未支持的 WebSocket 扩展"@))
        } else if !reachable {
            Some(HttpErrorView::InvalidState("传输服务未启动"@))
        } else {
            None
        }
    }

    /// After a handshake that succeeded.
    pub open spec fn shaken(
        self,
        transport: TransportId,
        response: HandshakeResponse,
        reachable: bool,
    ) -> WebSocketsView {
        if values_of(response.headers, EXTENSIONS@).len() > 0 {
            self.ended(transport, Err(self.refusal(response, reachable)->0))
        } else {
            let id = following(self.next_id);
            let numbered = WebSocketsView { next_id: id, ..self };
            match self.refusal(response, reachable) {
                Some(error) => numbered.ended(transport, Err(error)),
                None => (WebSocketsView {
                    connected: self.connected.insert(transport.number(), WebSocketId(id)),
                    ..numbered
                }).ended(transport, Ok(response)),
            }
        }
    }
}

impl WebSocketsView {
    /// What comes of a handshake that went on so: one that has to wait is kept, and what is to be
    /// sent for it is handed out.
    pub open spec fn went(
        self,
        transport: TransportId,
        service: u32,
        reachable: bool,
        outcome: Shaken,
        after: WebSocketsView,
        next: HandshakeNext,
    ) -> bool {
        match outcome {
            Shaken::Interrupted(handshake) => {
                &&& next.opened is None
                &&& !next.wake
                &&& next.output@ == handshake_stream(handshake).output
                &&& after == if self.opens(transport) {
                    self.with(
                        transport,
                        PendingHandshakeView {
                            handshake: Some(handshake_emptied(handshake)),
                            ..self.at(transport)
                        },
                    )
                } else {
                    self
                }
            },
            Shaken::Failed(reason) => {
                &&& next.opened is None
                &&& next.wake == self.awaited(transport)
                &&& next.output@.len() == 0
                &&& after == self.ended(transport, Err(HttpErrorView::WebSocket(reason@)))
            },
            Shaken::Done { socket, response } => {
                &&& next.wake == self.awaited(transport)
                &&& next.output@.len() == 0
                &&& after == self.shaken(transport, response, reachable)
                &&& next.opened is Some <==> self.refusal(response, reachable) is None
                &&& next.opened matches Some(shared) ==> {
                    &&& shared@ == SocketView::fresh()
                    &&& shared.socket.inner() == socket
                    &&& shared.socket.told().len() == 0
                    &&& shared.id.0 == following(self.next_id)
                    &&& shared.owner == service
                    &&& shared.transport == transport
                    &&& optional(shared.options.protocol) == chosen_protocol(response.headers)
                    &&& shared.options.input_high_water == self.config.input_high_water
                    &&& shared.options.input_low_water == self.config.input_low_water
                    &&& shared.options.close_timeout_ms == self.config.close_timeout_ms
                }
            },
        }
    }

    /// What the start of a handshake comes to: the crate makes one of the request, and goes on
    /// with it until it waits for the server.
    pub open spec fn begins(
        self,
        transport: TransportId,
        request: HttpRequest<()>,
        after: WebSocketsView,
        next: BeginNext,
    ) -> bool {
        match handshake_started(request, self.config.websocket) {
            Err(reason) => {
                &&& next matches BeginNext::Failed { error, shutdown } && error@
                    == HttpErrorView::WebSocket(reason) && !shutdown
                &&& after == self
            },
            Ok(started) => match shaken(started) {
                Shaken::Interrupted(handshake) => {
                    &&& next matches BeginNext::Begun { generation, output } && generation
                        == following(self.next_generation) && output@ == handshake_stream(
                        handshake,
                    ).output
                    &&& after == self.began(transport, handshake_emptied(handshake))
                },
                Shaken::Failed(reason) => {
                    &&& next matches BeginNext::Failed { error, shutdown } && error@
                        == HttpErrorView::WebSocket(reason@) && shutdown
                    &&& after == self
                },
                Shaken::Done { socket, response } => false,
            },
        }
    }
}

impl Default for WebSocketClient {
    /// Before any WebSocket was opened, with the usual values.
    fn default() -> (client: WebSocketClient)
        ensures
            exists|config: WebSocketClientConfig|
                {
                    &&& config.connect_timeout_ms == 10_000
                    &&& config.handshake_timeout_ms == 30_000
                    &&& config.close_timeout_ms == 5_000
                    &&& config.input_high_water == 262_144
                    &&& config.input_low_water == 131_072
                    &&& config.websocket == SocketLimits::usual()
                    &&& client@ == #[trigger] WebSocketsView::empty(config)
                },
    {
        WebSocketClient::new(WebSocketClientConfig::default())
    }
}

impl WebSocketClient {
    /// Before any WebSocket was opened.
    pub fn new(config: WebSocketClientConfig) -> (client: WebSocketClient)
        requires
            config.fault() is None,
        ensures
            client@ == WebSocketsView::empty(config),
    {
        let client = WebSocketClient {
            owner: None,
            config,
            next_id: 0,
            next_generation: 0,
            pending: HashMap::new(),
            connected: HashMap::new(),
        };
        assert(client@ =~= WebSocketsView::empty(config));
        client
    }

    /// The first service that uses the client is the only one that may.
    pub fn claim_owner(&mut self, service: u32) -> (result: Result<(), HttpError>)
        ensures
            result is Ok <==> (old(self)@.owner is None || old(self)@.owner == Some(service)),
            result is Ok ==> final(self)@ == (WebSocketsView { owner: Some(service), ..old(self)@ }),
            result matches Err(error) ==> {
                &&& error@ == HttpErrorView::InvalidState(
                    "WebSocketClient 只能由首次使用它的业务服务操作"@,
                )
                &&& final(self)@ == old(self)@
            },
    {
        match self.owner {
            Some(owner) => {
                if owner != service {
                    return Err(
                        HttpError::InvalidState("WebSocketClient 只能由首次使用它的业务服务操作"),
                    );
                }
                Ok(())
            },
            None => {
                self.owner = Some(service);
                Ok(())
            },
        }
    }

    /// Takes a handshake out, to work on it.
    fn take(&mut self, transport: TransportId) -> (pending: Option<PendingHandshake>)
        ensures
            match pending {
                Some(pending) => {
                    &&& old(self)@.opens(transport)
                    &&& pending@ == old(self)@.at(transport)
                },
                None => !old(self)@.opens(transport) && final(self)@ == old(self)@,
            },
            final(self)@ == old(self)@.without(transport),
    {
        let key: u128 = transport.key();
        let pending = self.pending.remove(&key);
        assert(self@ =~= old(self)@.without(transport));
        if pending.is_none() {
            assert(self@ =~= old(self)@);
        }
        pending
    }

    /// Puts a handshake in.
    fn put(&mut self, transport: TransportId, pending: PendingHandshake)
        ensures
            final(self)@ == old(self)@.with(transport, pending@),
    {
        let _ = self.pending.insert(transport.key(), pending);
        assert(self@ =~= old(self)@.with(transport, pending@));
    }

    /// Starts a handshake.
    pub fn begin(&mut self, transport: TransportId, request: HttpRequest<()>) -> (next: BeginNext)
        requires
            old(self)@.config.websocket.ok(),
        ensures
            old(self)@.begins(transport, request, final(self)@, next),
    {
        let started = match start_handshake(request, self.config.websocket) {
            Err(reason) => {
                return BeginNext::Failed { error: HttpError::WebSocket(reason), shutdown: false };
            },
            Ok(started) => started,
        };
        match shake(started) {
            Shaken::Interrupted(handshake) => {
                let mut handshake = handshake;
                let output = handshake.take_output();
                let generation: u64 = next_number(self.next_generation);
                self.next_generation = generation;
                let ghost kept = handshake;
                let pending = PendingHandshake {
                    handshake: Some(handshake),
                    result: None,
                    waiting: false,
                    generation,
                };
                let _ = self.pending.insert(transport.key(), pending);
                assert(self@ =~= old(self)@.began(transport, kept));
                BeginNext::Begun { generation, output }
            },
            Shaken::Failed(reason) => BeginNext::Failed {
                error: HttpError::WebSocket(reason),
                shutdown: true,
            },
            Shaken::Done { .. } => BeginNext::Failed {
                error: HttpError::InvalidState("WebSocket 握手状态丢失"),
                shutdown: true,
            },
        }
    }

    /// A handshake is given up.
    pub fn give_up(&mut self, transport: TransportId)
        ensures
            final(self)@ == old(self)@.without(transport),
    {
        let _ = self.take(transport);
    }

    /// A handshake has come to an end; whether somebody who waits is to be told.
    pub fn finish_handshake(
        &mut self,
        transport: TransportId,
        result: Result<HandshakeResponse, HttpError>,
    ) -> (wake: bool)
        ensures
            final(self)@ == old(self)@.ended(transport, handshake_view(result)),
            wake == old(self)@.awaited(transport),
    {
        let ghost before = self@;
        let ghost view = handshake_view(result);
        match self.take(transport) {
            None => false,
            Some(pending) => {
                let mut pending = pending;
                let wake = pending.waiting;
                pending.waiting = false;
                pending.result = Some(result);
                assert(pending@ =~= PendingHandshakeView {
                    result: Some(view),
                    waiting: false,
                    ..before.at(transport)
                });
                self.put(transport, pending);
                assert(self@ =~= before.ended(transport, view));
                wake
            },
        }
    }

    /// The time for a handshake is over. Where it is not done, the connection is to be closed, and
    /// somebody who waits is to be told or not.
    pub fn handshake_timeout(&mut self, transport: TransportId, generation: u64) -> (shut: Option<
        bool,
    >)
        ensures
            old(self)@.overdue(transport, generation) ==> {
                &&& shut == Some(old(self)@.at(transport).waiting)
                &&& final(self)@ == old(self)@.ended(
                    transport,
                    Err(HttpErrorView::Timeout("websocket handshake"@)),
                )
            },
            !old(self)@.overdue(transport, generation) ==> shut is None && final(self)@
                == old(self)@,
    {
        let key: u128 = transport.key();
        let overdue = match self.pending.get(&key) {
            Some(pending) => pending.generation == generation && pending.result.is_none(),
            None => false,
        };
        if !overdue {
            return None;
        }
        Some(
            self.finish_handshake(transport, Err(HttpError::Timeout("websocket handshake"))),
        )
    }

    /// Whoever opens a WebSocket asks what came of it.
    pub fn poll(&mut self, transport: TransportId) -> (next: PollNext)
        ensures
            match next {
                PollNext::Ready(result) => if old(self)@.opens(transport) {
                    &&& old(self)@.at(transport).result == Some(handshake_view(result))
                    &&& final(self)@ == old(self)@.without(transport)
                } else {
                    &&& result matches Err(error) && error@ == HttpErrorView::Canceled
                    &&& final(self)@ == old(self)@
                },
                PollNext::Wait => {
                    &&& old(self)@.opens(transport)
                    &&& old(self)@.at(transport).result is None
                    &&& final(self)@ == old(self)@.with(
                        transport,
                        PendingHandshakeView { waiting: true, ..old(self)@.at(transport) },
                    )
                },
            },
    {
        let ghost before = self@;
        match self.take(transport) {
            None => PollNext::Ready(Err(HttpError::Canceled)),
            Some(pending) => {
                let mut pending = pending;
                match pending.result.take() {
                    Some(result) => PollNext::Ready(result),
                    None => {
                        pending.waiting = true;
                        assert(pending@ =~= PendingHandshakeView {
                            waiting: true,
                            ..before.at(transport)
                        });
                        self.put(transport, pending);
                        assert(self@ =~= before.with(
                            transport,
                            PendingHandshakeView { waiting: true, ..before.at(transport) },
                        ));
                        PollNext::Wait
                    },
                }
            },
        }
    }

    /// Whether a transport is that of a WebSocket of the client.
    pub fn handles(&self, transport: TransportId) -> (handles: bool)
        ensures
            handles == (self@.opens(transport) || self@.open_on(transport)),
    {
        let key: u128 = transport.key();
        self.pending.contains_key(&key) || self.connected.contains_key(&key)
    }

    /// Bytes came in. A WebSocket that is open now belongs to `service`; `reachable` says whether
    /// the transport's service is there.
    pub fn on_data(&mut self, transport: TransportId, service: u32, reachable: bool, data: Vec<u8>) -> (
    next: ClientData)
        ensures
            old(self)@.open_on(transport) ==> {
                &&& next == (ClientData::Socket {
                    id: old(self)@.connected[transport.number()],
                    data,
                })
                &&& final(self)@ == old(self)@
            },
            !old(self)@.open_on(transport) && !old(self)@.opens(transport) ==> {
                &&& next matches ClientData::Failed(error) && error@
                    == HttpErrorView::InvalidState("WebSocket 客户端连接不存在"@)
                &&& final(self)@ == old(self)@
            },
            !old(self)@.open_on(transport) && old(self)@.opens(transport) ==> match old(self)@.at(
                transport,
            ).handshake {
                None => {
                    &&& next matches ClientData::Failed(error) && error@
                        == HttpErrorView::InvalidState("WebSocket 握手状态丢失"@)
                    &&& final(self)@ == old(self)@
                },
                Some(handshake) => {
                    &&& next matches ClientData::Handshake(went) && old(self)@.with(
                        transport,
                        PendingHandshakeView { handshake: None, ..old(self)@.at(transport) },
                    ).went(
                        transport,
                        service,
                        reachable,
                        shaken(handshake_fed(handshake, data@)),
                        final(self)@,
                        went,
                    )
                },
            },
    {
        let ghost before = self@;
        let key: u128 = transport.key();
        if let Some(id) = self.connected.get(&key) {
            return ClientData::Socket { id: *id, data };
        }
        let taken = match self.take(transport) {
            None => {
                return ClientData::Failed(HttpError::InvalidState("WebSocket 客户端连接不存在"));
            },
            Some(pending) => {
                let mut pending = pending;
                let taken = pending.handshake.take();
                assert(pending@ =~= PendingHandshakeView { handshake: None, ..before.at(transport) });
                self.put(transport, pending);
                assert(self@ =~= before.with(
                    transport,
                    PendingHandshakeView { handshake: None, ..before.at(transport) },
                ));
                taken
            },
        };
        match taken {
            None => {
                assert(self@ =~= before);
                ClientData::Failed(HttpError::InvalidState("WebSocket 握手状态丢失"))
            },
            Some(handshake) => {
                let mut handshake = handshake;
                handshake.push_input(data);
                let outcome = shake(handshake);
                ClientData::Handshake(
                    self.handshake_went(transport, service, reachable, outcome),
                )
            },
        }
    }

    /// A handshake went on. A WebSocket that is open now belongs to `service`; `reachable` says
    /// whether the transport's service is there.
    pub fn handshake_went(
        &mut self,
        transport: TransportId,
        service: u32,
        reachable: bool,
        outcome: Shaken,
    ) -> (next: HandshakeNext)
        ensures
            old(self)@.went(transport, service, reachable, outcome, final(self)@, next),
    {
        let ghost before = self@;
        match outcome {
            Shaken::Interrupted(handshake) => {
                let mut handshake = handshake;
                let output = handshake.take_output();
                let ghost kept = handshake;
                match self.take(transport) {
                    None => {},
                    Some(pending) => {
                        let mut pending = pending;
                        pending.handshake = Some(handshake);
                        assert(pending@ =~= PendingHandshakeView {
                            handshake: Some(kept),
                            ..before.at(transport)
                        });
                        self.put(transport, pending);
                        assert(self@ =~= before.with(
                            transport,
                            PendingHandshakeView { handshake: Some(kept), ..before.at(transport) },
                        ));
                    },
                }
                HandshakeNext { opened: None, wake: false, output }
            },
            Shaken::Failed(reason) => {
                let wake = self.finish_handshake(transport, Err(HttpError::WebSocket(reason)));
                HandshakeNext { opened: None, wake, output: Vec::new() }
            },
            Shaken::Done { socket, response } => {
                proof {
                    reveal_strlit("sec-websocket-extensions");
                    reveal_strlit("sec-websocket-protocol");
                    assert(lower_name(EXTENSIONS@));
                    assert(lower_name(PROTOCOL@));
                }
                let extensions = every_header(&response.headers, EXTENSIONS);
                assert(extensions@.map_values(|v: Vec<u8>| v@).len() == extensions@.len());
                if extensions.len() > 0 {
                    let wake = self.finish_handshake(
                        transport,
                        Err(
                            HttpError::Protocol("服务端返回了未支持的 WebSocket 扩展".to_owned()),
                        ),
                    );
                    return HandshakeNext { opened: None, wake, output: Vec::new() };
                }
                let mut protocols = every_header(&response.headers, PROTOCOL);
                let ghost values = protocols@.map_values(|v: Vec<u8>| v@);
                assert(values.len() == protocols@.len());
                let protocol = if protocols.len() > 0 {
                    let first = protocols.remove(0);
                    assert(values[0] == first@);
                    read_value(first)
                } else {
                    None
                };
                self.next_id = next_number(self.next_id);
                let id = WebSocketId(self.next_id);
                let ghost numbered = self@;
                assert(numbered =~= WebSocketsView { next_id: id.0, ..before });
                let options = SocketOptions {
                    protocol,
                    input_high_water: self.config.input_high_water,
                    input_low_water: self.config.input_low_water,
                    close_timeout_ms: self.config.close_timeout_ms,
                };
                match SharedSocket::from_socket(
                    id,
                    service,
                    transport,
                    socket,
                    options,
                    reachable,
                ) {
                    Err(error) => {
                        let wake = self.finish_handshake(transport, Err(error));
                        HandshakeNext { opened: None, wake, output: Vec::new() }
                    },
                    Ok(shared) => {
                        let _ = self.connected.insert(transport.key(), id);
                        assert(self@ =~= WebSocketsView {
                            connected: before.connected.insert(transport.number(), id),
                            ..numbered
                        });
                        let wake = self.finish_handshake(transport, Ok(response));
                        HandshakeNext { opened: Some(shared), wake, output: Vec::new() }
                    },
                }
            },
        }
    }

    /// A WebSocket is open no longer.
    pub fn disconnect(&mut self, transport: TransportId)
        ensures
            final(self)@ == (WebSocketsView {
                connected: old(self)@.connected.remove(transport.number()),
                ..old(self)@
            }),
    {
        let key: u128 = transport.key();
        let _ = self.connected.remove(&key);
        assert(self@ =~= (WebSocketsView {
            connected: old(self)@.connected.remove(transport.number()),
            ..old(self)@
        }));
    }

    /// A transport is gone, and perhaps it is known why. The WebSocket that was open on it is to
    /// be told, and so is somebody who waits for its handshake, or not.
    pub fn on_closed(&mut self, transport: TransportId, reason: &Option<String>) -> (told: (
        Option<WebSocketId>,
        bool,
    ))
        ensures
            final(self)@ == old(self)@.closed(transport, optional(*reason)),
            told.0 == if old(self)@.open_on(transport) {
                Some(old(self)@.connected[transport.number()])
            } else {
                None
            },
            told.1 == old(self)@.awaited(transport),
    {
        let key: u128 = transport.key();
        let open = match self.connected.get(&key) {
            Some(id) => Some(*id),
            None => None,
        };
        self.disconnect(transport);
        let text = match reason {
            Some(reason) => reason.clone(),
            None => "连接已关闭".to_owned(),
        };
        let wake = self.finish_handshake(transport, Err(HttpError::Transport(text)));
        (open, wake)
    }
}

/// A handshake that is done is not timed out any more.
pub proof fn law_a_done_handshake_is_not_overdue(
    client: WebSocketsView,
    transport: TransportId,
    result: Result<HandshakeResponse, HttpErrorView>,
    generation: u64,
)
    ensures
        !client.ended(transport, result).overdue(transport, generation),
{
}

} // verus!
