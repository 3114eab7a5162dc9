//! A server that lives inside another service.

#[allow(unused_imports)]
use crate::http::client::following;
use crate::http::client::next_number;
use crate::http::config::HttpServerConfig;
#[allow(unused_imports)]
use crate::http::connection::ConnectionView;
use crate::http::connection::{HttpListenerId, ServerConnection};
use crate::http::error::HttpError;
#[allow(unused_imports)]
use crate::http::error::HttpErrorView;
#[allow(unused_imports)]
use crate::http::reply::ServerStage;
use crate::http::transport::{TlsEvent, TransportId};
use crate::net::event::SocketEvent;
#[allow(unused_imports)]
use crate::places::{first_place, lemma_first_place_is};
use std::collections::HashMap;
use vstd::prelude::*;

verus! {

broadcast use vstd::std_specs::hash::group_hash_axioms;

/// A listener and the transport it listens on.
#[derive(Debug, Clone, Copy, PartialEq, Eq, Structural)]
pub struct Listening {
    pub transport: TransportId,
    pub id: HttpListenerId,
}

/// A server.
pub struct HttpServer {
    pub config: HttpServerConfig,
    pub next_listener: u64,
    pub next_websocket: u64,
    pub listeners: Vec<Listening>,
    /// The connections, by the numbers of their transports.
    pub connections: HashMap<u128, ServerConnection>,
}

/// What an [`HttpServer`] holds.
#[verifier::ext_equal]
pub struct ServerView {
    pub config: HttpServerConfig,
    pub next_listener: u64,
    pub next_websocket: u64,
    pub listeners: Seq<Listening>,
    pub connections: Map<u128, ConnectionView>,
}

impl View for HttpServer {
    type V = ServerView;

    open spec fn view(&self) -> ServerView {
        ServerView {
            config: self.config,
            next_listener: self.next_listener,
            next_websocket: self.next_websocket,
            listeners: self.listeners@,
            connections: self.connections@.map_values(|c: ServerConnection| c@),
        }
    }
}

/// The listeners but for the one on a transport.
pub open spec fn without_listener(listeners: Seq<Listening>, transport: TransportId) -> Seq<
    Listening,
> {
    listeners.filter(|l: Listening| l.transport != transport)
}

impl ServerView {
    /// A server that has done nothing yet.
    pub open spec fn empty(config: HttpServerConfig) -> ServerView {
        ServerView {
            config,
            next_listener: 0,
            next_websocket: 0,
            listeners: Seq::empty(),
            connections: Map::empty(),
        }
    }

    /// The place of the listener on a transport, or the length where there is none.
    pub open spec fn listener_place(self, transport: TransportId) -> int {
        first_place(self.listeners, |l: Listening| l.transport == transport)
    }

    /// Whether the server listens on a transport.
    pub open spec fn listens(self, transport: TransportId) -> bool {
        self.listener_place(transport) < self.listeners.len()
    }

    /// The listener on a transport.
    pub open spec fn listener(self, transport: TransportId) -> Option<HttpListenerId> {
        if self.listens(transport) {
            Some(self.listeners[self.listener_place(transport)].id)
        } else {
            None
        }
    }

    /// The place of a listener, or the length where there is none.
    pub open spec fn place_of(self, id: HttpListenerId) -> int {
        first_place(self.listeners, |l: Listening| l.id == id)
    }

    /// Whether the server has a connection.
    pub open spec fn has(self, transport: TransportId) -> bool {
        self.connections.dom().contains(transport.number())
    }

    /// A connection.
    pub open spec fn at(self, transport: TransportId) -> ConnectionView {
        self.connections[transport.number()]
    }

    /// Whether a transport is the server's.
    pub open spec fn owns(self, transport: TransportId) -> bool {
        self.listens(transport) || self.has(transport)
    }

    /// The server with one more listener.
    pub open spec fn listening(self, transport: TransportId) -> ServerView {
        let id = following(self.next_listener);
        ServerView {
            next_listener: id,
            listeners: without_listener(self.listeners, transport).push(
                Listening { transport, id: HttpListenerId(id) },
            ),
            ..self
        }
    }

    /// The server with a connection in another state.
    pub open spec fn with(self, transport: TransportId, connection: ConnectionView) -> ServerView {
        ServerView {
            connections: self.connections.insert(transport.number(), connection),
            ..self
        }
    }

    /// The server without a connection.
    pub open spec fn without(self, transport: TransportId) -> ServerView {
        ServerView { connections: self.connections.remove(transport.number()), ..self }
    }
}

impl ConnectionView {
    /// A connection that was just accepted.
    pub open spec fn fresh(
        transport: TransportId,
        listener: HttpListenerId,
        peer: Seq<char>,
        tls: bool,
    ) -> ConnectionView {
        ConnectionView {
            transport,
            listener,
            peer,
            tls,
            proto: Some(ServerStage::RecvRequest),
            input: Seq::empty(),
            chunks: Seq::empty(),
            body_ended: false,
            error: None,
            paused: false,
            response_expected: None,
            response_written: 0,
            header_generation: 1,
        }
    }
}

impl Default for HttpServer {
    /// A server that has done nothing yet, with the usual values.
    fn default() -> (server: HttpServer)
        ensures
            server@ == ServerView::empty(HttpServerConfig::usual()),
    {
        HttpServer::new(HttpServerConfig::default())
    }
}

impl HttpServer {
    /// A server that has done nothing yet.
    pub fn new(config: HttpServerConfig) -> (server: HttpServer)
        requires
            config.fault() is None,
        ensures
            server@ == ServerView::empty(config),
    {
        let server = HttpServer {
            config,
            next_listener: 0,
            next_websocket: 0,
            listeners: Vec::new(),
            connections: HashMap::new(),
        };
        assert(server@ =~= ServerView::empty(config));
        server
    }

    /// Takes a connection out, to work on it.
    pub(crate) fn take(&mut self, transport: TransportId) -> (connection: Option<ServerConnection>)
        ensures
            match connection {
                Some(connection) => {
                    &&& old(self)@.has(transport)
                    &&& connection@ == old(self)@.at(transport)
                    &&& old(self).connections@.dom().contains(transport.number())
                    &&& connection == old(self).connections@[transport.number()]
                },
                None => !old(self)@.has(transport) && final(self)@ == old(self)@
                    && final(self).connections@ == old(self).connections@,
            },
            final(self)@ == old(self)@.without(transport),
            final(self).connections@ == old(self).connections@.remove(transport.number()),
    {
        let key: u128 = transport.key();
        let connection = self.connections.remove(&key);
        assert(self@ =~= old(self)@.without(transport));
        if connection.is_none() {
            assert(self@ =~= old(self)@);
            assert(self.connections@ =~= old(self).connections@);
        }
        connection
    }

    /// Puts a connection in.
    pub(crate) fn put(&mut self, transport: TransportId, connection: ServerConnection)
        ensures
            final(self)@ == old(self)@.with(transport, connection@),
            final(self).connections@ == old(self).connections@.insert(
                transport.number(),
                connection,
            ),
    {
        let _ = self.connections.insert(transport.key(), connection);
        assert(self@ =~= old(self)@.with(transport, connection@));
    }

    /// Looks for the listener on a transport.
    pub(crate) fn find_listener(&self, transport: TransportId) -> (id: Option<HttpListenerId>)
        ensures
            id == self@.listener(transport),
    {
        let ghost holds = |l: Listening| l.transport == transport;
        let mut i: usize = 0;
        while i < self.listeners.len() && self.listeners[i].transport != transport
            invariant
                i <= self.listeners@.len(),
                holds == |l: Listening| l.transport == transport,
                forall|k: int| 0 <= k < i ==> !holds(#[trigger] self.listeners@[k]),
            decreases self.listeners@.len() - i,
        {
            i += 1;
        }
        proof {
            lemma_first_place_is(self.listeners@, holds, i as int);
        }
        if i < self.listeners.len() {
            Some(self.listeners[i].id)
        } else {
            None
        }
    }

    /// Forgets the listener on a transport.
    pub fn remove_listener(&mut self, transport: TransportId)
        ensures
            final(self)@ == (ServerView {
                listeners: without_listener(old(self)@.listeners, transport),
                ..old(self)@
            }),
            final(self).connections == old(self).connections,
    {
        let ghost holds = |l: Listening| l.transport != transport;
        let ghost all = self.listeners@;
        let mut kept: Vec<Listening> = Vec::new();
        let mut i: usize = 0;
        assert(all.take(0).filter(holds) =~= Seq::empty());
        while i < self.listeners.len()
            invariant
                i <= self.listeners@.len(),
                self@ == old(self)@,
                all == self.listeners@,
                holds == |l: Listening| l.transport != transport,
                kept@ == all.take(i as int).filter(holds),
            decreases self.listeners@.len() - i,
        {
            let one = self.listeners[i];
            assert(all.take(i + 1).drop_last() =~= all.take(i as int));
            assert(all.take(i + 1).last() == one);
            reveal(Seq::filter);
            if one.transport != transport {
                kept.push(one);
            }
            i += 1;
        }
        assert(all.take(i as int) =~= all);
        self.listeners = kept;
        assert(self@ =~= (ServerView {
            listeners: without_listener(old(self)@.listeners, transport),
            ..old(self)@
        }));
    }

    /// Takes note of a listener.
    pub fn insert_listener(&mut self, transport: TransportId) -> (id: HttpListenerId)
        ensures
            final(self)@ == old(self)@.listening(transport),
            id.0 == following(old(self)@.next_listener),
    {
        self.remove_listener(transport);
        self.next_listener = next_number(self.next_listener);
        let id = HttpListenerId(self.next_listener);
        self.listeners.push(Listening { transport, id });
        assert(self@ =~= old(self)@.listening(transport));
        id
    }

    /// The transport of a listener, whose address is asked for.
    pub fn listener_transport(&self, id: HttpListenerId) -> (result: Result<TransportId, HttpError>)
        ensures
            self@.place_of(id) < self@.listeners.len() ==> result == Ok::<TransportId, HttpError>(
                self@.listeners[self@.place_of(id)].transport,
            ),
            self@.place_of(id) >= self@.listeners.len() ==> (result matches Err(error) && error@
                == HttpErrorView::InvalidState("HTTP listener 不存在"@)),
    {
        let ghost holds = |l: Listening| l.id == id;
        let mut i: usize = 0;
        while i < self.listeners.len() && self.listeners[i].id != id
            invariant
                i <= self.listeners@.len(),
                holds == |l: Listening| l.id == id,
                forall|k: int| 0 <= k < i ==> !holds(#[trigger] self.listeners@[k]),
            decreases self.listeners@.len() - i,
        {
            i += 1;
        }
        proof {
            lemma_first_place_is(self.listeners@, holds, i as int);
        }
        if i < self.listeners.len() {
            Ok(self.listeners[i].transport)
        } else {
            Err(HttpError::InvalidState("HTTP listener 不存在"))
        }
    }

    /// Whether a transport is the server's.
    pub fn owns(&self, transport: TransportId) -> (owns: bool)
        ensures
            owns == self@.owns(transport),
    {
        let key: u128 = transport.key();
        self.find_listener(transport).is_some() || self.connections.contains_key(&key)
    }

    /// Whether an event on a plain socket is the server's. A new connection is when the listener
    /// that accepted it is; a datagram never is.
    pub fn handles_socket(&self, event: &SocketEvent) -> (handles: bool)
        ensures
            handles == match *event {
                SocketEvent::Accept { id, listen, peer } => self@.listens(
                    TransportId::Plain(listen),
                ) || self@.has(TransportId::Plain(id)),
                SocketEvent::Udp { id, from, data } => false,
                other => self@.owns(TransportId::Plain(other@.socket())),
            },
    {
        match event {
            SocketEvent::Accept { id, listen, .. } => {
                let key: u128 = TransportId::Plain(*id).key();
                self.find_listener(TransportId::Plain(*listen)).is_some()
                    || self.connections.contains_key(&key)
            },
            SocketEvent::Udp { .. } => false,
            other => self.owns(TransportId::Plain(other.id())),
        }
    }

    /// Whether an event on a secure connection is the server's. A new connection is when the
    /// listener that accepted it is.
    pub fn handles_tls(&self, event: &TlsEvent) -> (handles: bool)
        ensures
            handles == match *event {
                TlsEvent::Connected { id, listen, peer } => (listen is Some && self@.listens(
                    TransportId::Tls(listen->0),
                )) || self@.has(TransportId::Tls(id)),
                other => self@.owns(TransportId::Tls(other.about())),
            },
    {
        match event {
            TlsEvent::Connected { id, listen, .. } => {
                let key: u128 = TransportId::Tls(*id).key();
                let accepted = match listen {
                    Some(listen) => self.find_listener(TransportId::Tls(*listen)).is_some(),
                    None => false,
                };
                accepted || self.connections.contains_key(&key)
            },
            other => self.owns(TransportId::Tls(other.id())),
        }
    }
}

} // verus!
