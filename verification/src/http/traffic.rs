//! What a server does with what comes in on its connections, and how it answers.

use crate::http::body::BodySpec;
use crate::http::client::next_number;
#[allow(unused_imports)]
use crate::http::client::following;
use crate::http::connection::{ServeDone, ServerConnection, ServerRequest};
#[allow(unused_imports)]
use crate::http::connection::{
    failure_view, requests_view, served, ConnectionView, ServeStep, ServeView, ServerRequestView,
};
use crate::http::error::HttpError;
#[allow(unused_imports)]
use crate::http::error::HttpErrorView;
use crate::http::exchange::buffered_bytes;
use crate::http::headers::apply_body_headers;
#[allow(unused_imports)]
use crate::http::headers::{framing_fault, framing_header, header_values, roomy};
use crate::http::reply::{new_reply, new_response, Attending, ResponseDraft, ServerProto};
#[allow(unused_imports)]
use crate::http::reply::{allowed, leave, response_for, ResponseView, ServerStage};
use crate::http::respond::{ChunkNext, Responded, Switched};
#[allow(unused_imports)]
use crate::http::respond::{
    answer_left, answer_note, chunk_view, end_left, end_note, ended_view, may_answer, may_end,
    offered, reply_fits, reply_head, reply_left, reply_note, respond_stalled, responded_view,
    switch_note, switching, LeaveNote, ReplyEnd,
};
use crate::http::server::HttpServer;
#[allow(unused_imports)]
use crate::http::server::{without_listener, ServerView};
use crate::http::transport::TransportId;
use std::collections::VecDeque;
use ureq_proto::http::HeaderMap;
use vstd::prelude::*;

verus! {

broadcast use vstd::std_specs::hash::group_hash_axioms;

/// The replies of the connections, by the number of their transports.
pub open spec fn replies(server: HttpServer) -> Map<u128, Option<ServerProto>> {
    server.connections@.map_values(|connection: ServerConnection| connection.proto)
}

/// The reply of a connection.
pub open spec fn reply_at(server: HttpServer, transport: TransportId) -> Option<ServerProto> {
    server.connections@[transport.number()].proto
}

/// Only the reply of one connection has changed.
pub open spec fn reply_changed(
    before: HttpServer,
    after: HttpServer,
    transport: TransportId,
    reply: Option<ServerProto>,
) -> bool {
    replies(after) == replies(before).insert(transport.number(), reply)
}

/// Every connection that is left has the reply that it had.
pub open spec fn replies_kept(before: HttpServer, after: HttpServer) -> bool {
    replies(after).submap_of(replies(before))
}

/// Every other connection has the reply that it had.
pub open spec fn others_kept(
    before: HttpServer,
    after: HttpServer,
    transport: TransportId,
) -> bool {
    replies(after).remove(transport.number()) == replies(before).remove(transport.number())
}

/// A connection is read in these steps as its reply makes them, and that reply is left.
pub open spec fn reads_so(
    x: ConnectionView,
    reply: Option<ServerProto>,
    limit: usize,
    room: usize,
    steps: Seq<ServeStep>,
    left: Option<ServerProto>,
) -> bool {
    served(ServeView::start(x), reply, limit, room as int, steps.len()) == (
        ServeView::start(x).run(steps, limit),
        left,
    )
}

/// What is to be done about a connection that a listener accepted.
#[derive(Debug)]
pub enum AcceptNext {
    /// The listener is not the server's.
    Nothing,
    /// The connection is awaited a request on: after this time without one it is closed.
    Await { generation: u64, after_ms: u64 },
}

impl ServerView {
    /// What accepting a connection comes to. `refusal` is what the protocol says against it, and
    /// `reachable` whether the transport's service is there.
    pub open spec fn accept_result(
        self,
        listen: TransportId,
        refusal: Option<Seq<char>>,
        reachable: bool,
    ) -> Result<AcceptNext, HttpErrorView> {
        if !self.listens(listen) {
            Ok(AcceptNext::Nothing)
        } else if refusal is Some {
            Err(HttpErrorView::Protocol(refusal->0))
        } else if !reachable {
            Err(HttpErrorView::InvalidState("传输服务未启动"@))
        } else {
            Ok(
                AcceptNext::Await {
                    generation: 1,
                    after_ms: self.config.header_timeout_ms,
                },
            )
        }
    }

    /// The server after that.
    pub open spec fn accepted(
        self,
        transport: TransportId,
        listen: TransportId,
        peer: Seq<char>,
        tls: bool,
        refusal: Option<Seq<char>>,
        reachable: bool,
    ) -> ServerView {
        if self.listens(listen) && refusal is None && reachable {
            self.with(
                transport,
                ConnectionView::fresh(transport, self.listener(listen)->0, peer, tls),
            )
        } else {
            self
        }
    }
}

/// What accepting a connection says.
pub open spec fn accept_view(result: Result<AcceptNext, HttpError>) -> Result<
    AcceptNext,
    HttpErrorView,
> {
    match result {
        Ok(next) => Ok(next),
        Err(error) => Err(error@),
    }
}

/// What speaks against a new reply.
pub open spec fn refusal_text(reply: Result<Attending, String>) -> Option<Seq<char>> {
    match reply {
        Ok(_) => None,
        Err(reason) => Some(reason@),
    }
}

/// Taking a connection out and putting one in changes only that one.
proof fn lemma_put_back(server: ServerView, transport: TransportId, connection: ConnectionView)
    ensures
        server.without(transport).with(transport, connection) == server.with(
            transport,
            connection,
        ),
        server.has(transport) ==> server.with(transport, server.at(transport)) == server,
{
    assert(server.without(transport).with(transport, connection) =~= server.with(
        transport,
        connection,
    ));
    if server.has(transport) {
        assert(server.with(transport, server.at(transport)) =~= server);
    }
}

impl HttpServer {
    /// Takes a connection in, when the protocol was asked for a new reply.
    pub fn insert_connection(
        &mut self,
        transport: TransportId,
        listen: TransportId,
        peer: String,
        tls: bool,
        reply: Result<Attending, String>,
        reachable: bool,
    ) -> (result: Result<AcceptNext, HttpError>)
        ensures
            accept_view(result) == old(self)@.accept_result(
                listen,
                refusal_text(reply),
                reachable,
            ),
            final(self)@ == old(self)@.accepted(
                transport,
                listen,
                peer@,
                tls,
                refusal_text(reply),
                reachable,
            ),
            others_kept(*old(self), *final(self), transport),
    {
        let listener = match self.find_listener(listen) {
            Some(listener) => listener,
            None => {
                return Ok(AcceptNext::Nothing);
            },
        };
        let reply = match reply {
            Ok(reply) => reply,
            Err(reason) => {
                return Err(HttpError::Protocol(reason));
            },
        };
        if !reachable {
            return Err(HttpError::InvalidState("传输服务未启动"));
        }
        let connection = ServerConnection {
            transport,
            listener,
            peer,
            tls,
            proto: Some(ServerProto::RecvRequest(reply)),
            input: Vec::new(),
            chunks: VecDeque::new(),
            body_ended: false,
            error: None,
            paused: false,
            response_expected: None,
            response_written: 0,
            header_generation: 1,
        };
        assert(connection@ =~= ConnectionView::fresh(transport, listener, peer@, tls));
        self.put(transport, connection);
        assert(others_kept(*old(self), *self, transport)) by {
            assert(replies(*self).remove(transport.number()) =~= replies(*old(self)).remove(
                transport.number(),
            ));
        }
        Ok(AcceptNext::Await { generation: 1, after_ms: self.config.header_timeout_ms })
    }

    /// A listener accepted a connection.
    pub fn accept(
        &mut self,
        transport: TransportId,
        listen: TransportId,
        peer: String,
        tls: bool,
        reachable: bool,
    ) -> (result: Result<AcceptNext, HttpError>)
        ensures
            accept_view(result) == old(self)@.accept_result(listen, None, reachable),
            final(self)@ == old(self)@.accepted(transport, listen, peer@, tls, None, reachable),
            others_kept(*old(self), *final(self), transport),
    {
        let reply = new_reply();
        let ghost refusal = refusal_text(reply);
        let ghost before = self@;
        let ghost who = peer@;
        let result = self.insert_connection(transport, listen, peer, tls, reply, reachable);
        assert(self@ == before.accepted(transport, listen, who, tls, refusal, reachable));
        result
    }

    /// Forgets a connection.
    pub fn remove_connection(&mut self, transport: TransportId)
        ensures
            final(self)@ == old(self)@.without(transport),
            replies(*final(self)) == replies(*old(self)).remove(transport.number()),
    {
        let _ = self.take(transport);
        assert(replies(*self) =~= replies(*old(self)).remove(transport.number()));
    }
}

/// What bytes that came in lead to.
pub enum DataNext {
    /// They are a WebSocket's.
    Socket { id: u64, data: Vec<u8> },
    /// These requests came; perhaps the connection is to receive nothing for a while.
    Requests { requests: Vec<ServerRequest>, pause: bool },
    /// The connection is to be closed, and this is why.
    Failed(HttpError),
}

/// What a [`DataNext`] says.
#[verifier::ext_equal]
pub enum DataNextView {
    Socket { id: u64, data: Seq<u8> },
    Requests { requests: Seq<ServerRequestView>, pause: bool },
    Failed(HttpErrorView),
}

impl View for DataNext {
    type V = DataNextView;

    open spec fn view(&self) -> DataNextView {
        match *self {
            DataNext::Socket { id, data } => DataNextView::Socket { id, data: data@ },
            DataNext::Requests { requests, pause } => DataNextView::Requests {
                requests: requests_view(requests@),
                pause,
            },
            DataNext::Failed(error) => DataNextView::Failed(error@),
        }
    }
}

impl ConnectionView {
    /// The connection with bytes that came in.
    pub open spec fn fed(self, data: Seq<u8>) -> ConnectionView {
        ConnectionView { input: self.input + data, ..self }
    }

    /// Whether the connection can be read in these steps.
    pub open spec fn readable(self, steps: Seq<ServeStep>, limit: usize, room: usize) -> bool {
        &&& ServeView::start(self).admits(steps, limit, room as int)
        &&& ServeView::start(self).ends(steps, limit)
    }

    /// The connection after it was read, paused where too much waits.
    pub open spec fn relaxed(self, high: usize) -> ConnectionView {
        if self.to_pause(high) {
            ConnectionView { paused: true, ..self }
        } else {
            self
        }
    }
}

impl ServerView {
    /// The WebSocket that a connection serves.
    pub open spec fn socket_of(self, transport: TransportId) -> Option<u64> {
        if self.has(transport) {
            match self.at(transport).proto {
                Some(ServerStage::WebSocket(id)) => Some(id),
                _ => None,
            }
        } else {
            None
        }
    }

    /// Where reading a connection in these steps ends.
    pub open spec fn served(self, connection: ConnectionView, steps: Seq<ServeStep>) -> ServeView {
        ServeView::start(connection).run(steps, self.config.max_header_size)
    }

    /// What bytes that came in on a connection lead to.
    pub open spec fn data_next(
        self,
        transport: TransportId,
        data: Seq<u8>,
        steps: Seq<ServeStep>,
    ) -> DataNextView {
        match self.socket_of(transport) {
            Some(id) => DataNextView::Socket { id, data },
            None => if !self.has(transport) {
                DataNextView::Requests { requests: Seq::empty(), pause: false }
            } else {
                let end = self.served(self.at(transport).fed(data), steps);
                match end.failed {
                    Some(error) => DataNextView::Failed(error),
                    None => DataNextView::Requests {
                        requests: end.requests,
                        pause: end.connection.to_pause(self.config.input_high_water),
                    },
                }
            },
        }
    }

    /// The server after that.
    pub open spec fn data_came(
        self,
        transport: TransportId,
        data: Seq<u8>,
        steps: Seq<ServeStep>,
    ) -> ServerView {
        if self.socket_of(transport) is Some || !self.has(transport) {
            self
        } else {
            let end = self.served(self.at(transport).fed(data), steps);
            match end.failed {
                Some(_) => self.without(transport),
                None => self.with(transport, end.connection.relaxed(self.config.input_high_water)),
            }
        }
    }
}

/// The replies after bytes came in on a connection: its own reply has read them.
pub open spec fn data_left(
    before: HttpServer,
    transport: TransportId,
    data: Seq<u8>,
    steps: Seq<ServeStep>,
    after: HttpServer,
) -> bool {
    let server = before@;
    if server.socket_of(transport) is Some || !server.has(transport) {
        replies(after) == replies(before)
    } else {
        let x = server.at(transport).fed(data);
        exists|left: Option<ServerProto>|
            {
                &&& #[trigger] reads_so(
                    x,
                    reply_at(before, transport),
                    server.config.max_header_size,
                    server.config.max_chunk_size,
                    steps,
                    left,
                )
                &&& match server.served(x, steps).failed {
                    Some(_) => replies(after) == replies(before).remove(transport.number()),
                    None => reply_changed(before, after, transport, left),
                }
            }
    }
}

/// What reading a connection comes to.
pub struct Processed {
    pub requests: Vec<ServerRequest>,
    pub failed: Option<HttpError>,
}

impl HttpServer {
    /// Reads what came in on a connection.
    pub fn process(&mut self, transport: TransportId) -> (processed: Processed)
        ensures
            !old(self)@.has(transport) ==> {
                &&& processed.requests@.len() == 0
                &&& processed.failed is None
                &&& final(self)@ == old(self)@
                &&& replies(*final(self)) == replies(*old(self))
            },
            old(self)@.has(transport) ==> exists|steps: Seq<ServeStep>|
                {
                    let end = old(self)@.served(old(self)@.at(transport), steps);
                    &&& old(self)@.at(transport).readable(
                        steps,
                        old(self)@.config.max_header_size,
                        old(self)@.config.max_chunk_size,
                    )
                    &&& requests_view(processed.requests@) == end.requests
                    &&& failure_view(processed.failed) == end.failed
                    &&& final(self)@ == old(self)@.with(
                        transport,
                        (#[trigger] old(self)@.served(old(self)@.at(transport), steps)).connection,
                    )
                    &&& reads_so(
                        old(self)@.at(transport),
                        reply_at(*old(self), transport),
                        old(self)@.config.max_header_size,
                        old(self)@.config.max_chunk_size,
                        steps,
                        reply_at(*final(self), transport),
                    )
                    &&& reply_changed(
                        *old(self),
                        *final(self),
                        transport,
                        reply_at(*final(self), transport),
                    )
                },
    {
        let ghost before = self@;
        let mut requests: Vec<ServerRequest> = Vec::new();
        match self.take(transport) {
            None => Processed { requests, failed: None },
            Some(connection) => {
                let mut connection = connection;
                let ghost x = connection@;
                let limit: usize = self.config.max_header_size;
                let room: usize = self.config.max_chunk_size;
                let ghost reply = connection.proto;
                let done = connection.process(limit, room, &mut requests);
                let ghost steps = choose|steps: Seq<ServeStep>|
                    {
                        &&& ServeView::start(x).admits(steps, limit, room as int)
                        &&& ServeView::start(x).ends(steps, limit)
                        &&& ServerConnection::serve_view(connection, requests@, done)
                            == #[trigger] ServeView::start(x).run(steps, limit)
                        &&& (
                            ServerConnection::serve_view(connection, requests@, done),
                            connection.proto,
                        ) == served(
                            ServeView::start(x),
                            reply,
                            limit,
                            room as int,
                            steps.len(),
                        )
                    };
                let ghost after = connection@;
                let ghost left = connection.proto;
                self.put(transport, connection);
                proof {
                    lemma_put_back(before, transport, after);
                    assert(replies(*self) =~= replies(*old(self)).insert(
                        transport.number(),
                        left,
                    ));
                    assert(x.readable(steps, limit, room));
                    assert(after == before.served(x, steps).connection);
                }
                Processed { requests, failed: done.failed }
            },
        }
    }

    /// Bytes came in on a connection.
    pub fn data(&mut self, transport: TransportId, data: Vec<u8>) -> (next: DataNext)
        ensures
            exists|steps: Seq<ServeStep>|
                {
                    &&& old(self)@.socket_of(transport) is None && old(self)@.has(transport)
                        ==> old(self)@.at(transport).fed(data@).readable(
                        steps,
                        old(self)@.config.max_header_size,
                        old(self)@.config.max_chunk_size,
                    )
                    &&& next@ == #[trigger] old(self)@.data_next(transport, data@, steps)
                    &&& final(self)@ == old(self)@.data_came(transport, data@, steps)
                    &&& data_left(*old(self), transport, data@, steps, *final(self))
                },
    {
        let ghost before = self@;
        let ghost none: Seq<ServeStep> = Seq::empty();
        let mut requests: Vec<ServerRequest> = Vec::new();
        match self.take(transport) {
            None => {
                let next = DataNext::Requests { requests, pause: false };
                assert(requests_view(requests@) =~= Seq::empty());
                assert(data_left(*old(self), transport, data@, none, *self));
                assert(next@ == before.data_next(transport, data@, none));
                next
            },
            Some(connection) => {
                let mut connection = connection;
                let ghost x = connection@;
                let socket = match &connection.proto {
                    Some(ServerProto::WebSocket(id)) => Some(*id),
                    _ => None,
                };
                let ghost reply = connection.proto;
                if let Some(id) = socket {
                    self.put(transport, connection);
                    proof {
                        lemma_put_back(before, transport, x);
                        assert(replies(*self) =~= replies(*old(self)));
                    }
                    let next = DataNext::Socket { id, data };
                    assert(next@ == before.data_next(transport, data@, none));
                    return next;
                }
                connection.input.extend_from_slice(data.as_slice());
                let ghost fed = connection@;
                assert(fed =~= x.fed(data@));
                let limit: usize = self.config.max_header_size;
                let room: usize = self.config.max_chunk_size;
                let done = connection.process(limit, room, &mut requests);
                let ghost steps = choose|steps: Seq<ServeStep>|
                    {
                        &&& ServeView::start(fed).admits(steps, limit, room as int)
                        &&& ServeView::start(fed).ends(steps, limit)
                        &&& ServerConnection::serve_view(connection, requests@, done)
                            == #[trigger] ServeView::start(fed).run(steps, limit)
                        &&& (
                            ServerConnection::serve_view(connection, requests@, done),
                            connection.proto,
                        ) == served(
                            ServeView::start(fed),
                            reply,
                            limit,
                            room as int,
                            steps.len(),
                        )
                    };
                let ghost left = connection.proto;
                assert(fed.readable(steps, limit, room));
                assert(reads_so(fed, reply, limit, room, steps, left));
                let ServeDone { more, failed } = done;
                match failed {
                    Some(error) => {
                        let next = DataNext::Failed(error);
                        assert(replies(*self) =~= replies(*old(self)).remove(transport.number()));
                        assert(data_left(*old(self), transport, data@, steps, *self));
                        assert(next@ == before.data_next(transport, data@, steps));
                        next
                    },
                    None => {
                        let ghost end = connection@;
                        let buffered: u128 = buffered_bytes(
                            &connection.input,
                            &connection.chunks,
                        );
                        let pause = !connection.body_ended && buffered
                            >= self.config.input_high_water as u128 && !connection.paused;
                        if pause {
                            connection.paused = true;
                        }
                        assert(connection@ =~= end.relaxed(before.config.input_high_water));
                        let ghost after = connection@;
                        self.put(transport, connection);
                        proof {
                            lemma_put_back(before, transport, after);
                            assert(replies(*self) =~= replies(*old(self)).insert(
                                transport.number(),
                                left,
                            ));
                            assert(data_left(*old(self), transport, data@, steps, *self));
                        }
                        let next = DataNext::Requests { requests, pause };
                        assert(next@ == before.data_next(transport, data@, steps));
                        next
                    },
                }
            },
        }
    }
}

/// What the end of a transport leads to.
#[derive(Debug)]
pub enum ClosedNext {
    Nothing,
    /// A WebSocket is told.
    Socket { id: u64, reason: Option<String> },
}

impl ServerView {
    /// The server when a transport is gone. A connection on which nothing was under way is
    /// forgotten; on any other whoever reads or responds finds out.
    pub open spec fn closed(self, transport: TransportId, reason: Option<Seq<char>>) -> ServerView {
        if self.listens(transport) {
            ServerView { listeners: without_listener(self.listeners, transport), ..self }
        } else if !self.has(transport) {
            self
        } else if self.socket_of(transport) is Some || self.at(transport).proto == Some(
            ServerStage::RecvRequest,
        ) {
            self.without(transport)
        } else {
            self.with(
                transport,
                ConnectionView {
                    error: Some(
                        match reason {
                            Some(reason) => reason,
                            None => "连接已关闭"@,
                        },
                    ),
                    body_ended: true,
                    ..self.at(transport)
                },
            )
        }
    }
}

impl HttpServer {
    /// A transport is gone, and perhaps it is known why.
    pub fn closed(&mut self, transport: TransportId, reason: Option<String>) -> (next: ClosedNext)
        ensures
            final(self)@ == old(self)@.closed(
                transport,
                match reason {
                    Some(reason) => Some(reason@),
                    None => None,
                },
            ),
            next == if old(self)@.listens(transport) {
                ClosedNext::Nothing
            } else {
                match old(self)@.socket_of(transport) {
                    Some(id) => ClosedNext::Socket { id, reason },
                    None => ClosedNext::Nothing,
                }
            },
            replies_kept(*old(self), *final(self)),
    {
        if self.find_listener(transport).is_some() {
            self.remove_listener(transport);
            return ClosedNext::Nothing;
        }
        let ghost before = self@;
        match self.take(transport) {
            None => ClosedNext::Nothing,
            Some(connection) => {
                let mut connection = connection;
                let ghost x = connection@;
                match &connection.proto {
                    Some(ServerProto::WebSocket(id)) => {
                        return ClosedNext::Socket { id: *id, reason };
                    },
                    Some(ServerProto::RecvRequest(_)) => {
                        return ClosedNext::Nothing;
                    },
                    _ => {},
                }
                let text = match reason {
                    Some(reason) => reason,
                    None => "连接已关闭".to_owned(),
                };
                connection.error = Some(text);
                connection.body_ended = true;
                assert(connection@ =~= ConnectionView {
                    error: Some(text@),
                    body_ended: true,
                    ..x
                });
                let ghost after = connection@;
                self.put(transport, connection);
                proof {
                    lemma_put_back(before, transport, after);
                }
                ClosedNext::Nothing
            },
        }
    }
}

/// How a connection goes on when a response was sent.
#[derive(Debug, PartialEq, Eq, Structural)]
pub enum FinishNext {
    /// It is closed.
    Shutdown,
    /// It is gone.
    Gone,
    /// The next request is awaited: after this time without one the connection is closed. Where
    /// some of it is there already, the connection is to be read again.
    Await { generation: u64, after_ms: u64, buffered: bool },
}

impl ServerView {
    /// How a connection goes on when a response was sent. `close` says that it has to be closed,
    /// and `renewable` whether the protocol gives a new reply.
    pub open spec fn finish_next(
        self,
        transport: TransportId,
        close: bool,
        renewable: bool,
    ) -> FinishNext {
        if close || !renewable {
            FinishNext::Shutdown
        } else if !self.has(transport) {
            FinishNext::Gone
        } else {
            FinishNext::Await {
                generation: following(self.at(transport).header_generation),
                after_ms: self.config.header_timeout_ms,
                buffered: self.at(transport).input.len() > 0,
            }
        }
    }

    /// The server after that.
    pub open spec fn finished(
        self,
        transport: TransportId,
        close: bool,
        renewable: bool,
    ) -> ServerView {
        if close || !renewable {
            self.without(transport)
        } else if !self.has(transport) {
            self
        } else {
            self.with(transport, self.at(transport).renewed())
        }
    }

    /// Whether a connection still awaits the request that it awaited under a number.
    pub open spec fn awaits(self, transport: TransportId, generation: u64) -> bool {
        &&& self.has(transport)
        &&& self.at(transport).header_generation == generation
        &&& self.at(transport).proto == Some(ServerStage::RecvRequest)
    }

    /// Whether a request's body has not come whole.
    pub open spec fn body_pending(self, transport: TransportId) -> bool {
        &&& self.has(transport)
        &&& self.at(transport).proto == Some(ServerStage::Await100) || self.at(transport).proto
            == Some(ServerStage::RecvBody)
        &&& !self.at(transport).body_ended
    }
}

impl HttpServer {
    /// Goes on when a response was sent and, where needed, the protocol was asked for a new
    /// reply.
    pub fn go_on(
        &mut self,
        transport: TransportId,
        close: bool,
        reply: Result<Attending, String>,
    ) -> (next: FinishNext)
        ensures
            next == old(self)@.finish_next(transport, close, reply is Ok),
            final(self)@ == old(self)@.finished(transport, close, reply is Ok),
            others_kept(*old(self), *final(self), transport),
            next is Await ==> reply_at(*final(self), transport) == Some(
                ServerProto::RecvRequest(reply->Ok_0),
            ),
    {
        let ghost before = self@;
        if close {
            self.remove_connection(transport);
            assert(replies(*self).remove(transport.number()) =~= replies(*old(self)).remove(
                transport.number(),
            ));
            return FinishNext::Shutdown;
        }
        let reply = match reply {
            Ok(reply) => reply,
            Err(_) => {
                self.remove_connection(transport);
                assert(replies(*self).remove(transport.number()) =~= replies(*old(self)).remove(
                    transport.number(),
                ));
                return FinishNext::Shutdown;
            },
        };
        match self.take(transport) {
            None => FinishNext::Gone,
            Some(connection) => {
                let mut connection = connection;
                connection.renew(reply);
                let generation: u64 = connection.header_generation;
                let buffered = connection.input.len() > 0;
                let ghost after = connection@;
                self.put(transport, connection);
                proof {
                    lemma_put_back(before, transport, after);
                    assert(replies(*self).remove(transport.number()) =~= replies(
                        *old(self),
                    ).remove(transport.number()));
                }
                FinishNext::Await {
                    generation,
                    after_ms: self.config.header_timeout_ms,
                    buffered,
                }
            },
        }
    }

    /// A response was sent.
    pub fn finish_response(&mut self, transport: TransportId, close: bool) -> (next: FinishNext)
        ensures
            next == old(self)@.finish_next(transport, close, true),
            final(self)@ == old(self)@.finished(transport, close, true),
            others_kept(*old(self), *final(self), transport),
    {
        let ghost before = self@;
        let reply = new_reply();
        let ghost renewable = reply is Ok;
        let next = self.go_on(transport, close, reply);
        assert(self@ == before.finished(transport, close, renewable));
        next
    }

    /// The time is over in which a request was to come; whether the connection is to be closed.
    pub fn header_timeout(&mut self, transport: TransportId, generation: u64) -> (shut: bool)
        ensures
            shut == old(self)@.awaits(transport, generation),
            replies_kept(*old(self), *final(self)),
            final(self)@ == if old(self)@.awaits(transport, generation) {
                old(self)@.without(transport)
            } else {
                old(self)@
            },
    {
        let key: u128 = transport.key();
        let waiting = match self.connections.get(&key) {
            Some(connection) => {
                connection.header_generation == generation && match &connection.proto {
                    Some(ServerProto::RecvRequest(_)) => true,
                    _ => false,
                }
            },
            None => false,
        };
        if waiting {
            self.remove_connection(transport);
        }
        waiting
    }

    /// Nobody deals with a connection any more; whether it is to be closed.
    pub fn abort(&mut self, transport: TransportId) -> (shut: bool)
        ensures
            shut == old(self)@.has(transport),
            final(self)@ == old(self)@.without(transport),
            replies_kept(*old(self), *final(self)),
    {
        self.take(transport).is_some()
    }

    /// Nobody reads a request's body any more; whether the connection is to be closed.
    pub fn abort_incoming(&mut self, transport: TransportId) -> (shut: bool)
        ensures
            shut == old(self)@.body_pending(transport),
            replies_kept(*old(self), *final(self)),
            final(self)@ == if old(self)@.body_pending(transport) {
                old(self)@.without(transport)
            } else {
                old(self)@
            },
    {
        let key: u128 = transport.key();
        let pending = match self.connections.get(&key) {
            Some(connection) => {
                let receives = match &connection.proto {
                    Some(ServerProto::Await100(_)) => true,
                    Some(ServerProto::RecvBody(_)) => true,
                    _ => false,
                };
                receives && !connection.body_ended
            },
            None => false,
        };
        if pending {
            let _ = self.abort(transport);
        }
        pending
    }
}

/// What asking for the next part of a request's body comes to.
pub struct ChunkStep {
    /// Whether the connection is to receive again first.
    pub resume: bool,
    /// What is answered now; nothing where it has to be asked again a little later.
    pub answer: Option<Result<Option<Vec<u8>>, HttpError>>,
    /// Whether the connection is to be closed, because nothing came for too long.
    pub late: bool,
}

impl ServerView {
    /// Whether nothing came for too long.
    pub open spec fn chunk_late(self, transport: TransportId, waited_ms: u64) -> bool {
        &&& self.at(transport).chunk_answer() is None
        &&& waited_ms >= self.config.body_idle_timeout_ms
    }

    /// What someone who has waited so long for the next part of a request's body is answered.
    pub open spec fn chunk_answer(self, transport: TransportId, waited_ms: u64) -> Option<
        Result<Option<Seq<u8>>, HttpErrorView>,
    > {
        if !self.has(transport) {
            Some(Err(HttpErrorView::BodyClosed))
        } else if self.chunk_late(transport, waited_ms) {
            Some(Err(HttpErrorView::Timeout("server body idle"@)))
        } else {
            self.at(transport).chunk_answer()
        }
    }

    /// The server after that.
    pub open spec fn chunk_asked(self, transport: TransportId, waited_ms: u64) -> ServerView {
        if !self.has(transport) {
            self
        } else if self.chunk_late(transport, waited_ms) || (self.at(
            transport,
        ).chunk_answer() matches Some(Err(_))) {
            self.without(transport)
        } else {
            self.with(transport, self.at(transport).chunk_asked(self.config.input_low_water))
        }
    }
}

impl HttpServer {
    /// Someone who has waited so long asks for the next part of a request's body.
    pub fn next_chunk(&mut self, transport: TransportId, waited_ms: u64) -> (step: ChunkStep)
        ensures
            chunk_view(step.answer) == old(self)@.chunk_answer(transport, waited_ms),
            step.resume == (old(self)@.has(transport) && old(self)@.at(
                transport,
            ).chunk_taken().to_resume(old(self)@.config.input_low_water)),
            step.late == (old(self)@.has(transport) && old(self)@.chunk_late(transport, waited_ms)),
            final(self)@ == old(self)@.chunk_asked(transport, waited_ms),
            replies_kept(*old(self), *final(self)),
    {
        let ghost before = self@;
        match self.take(transport) {
            None => ChunkStep {
                resume: false,
                answer: Some(Err(HttpError::BodyClosed)),
                late: false,
            },
            Some(connection) => {
                let mut connection = connection;
                let next = connection.ask_chunk(self.config.input_low_water);
                let ChunkNext { answer, resume, remove } = next;
                if remove {
                    return ChunkStep { resume, answer, late: false };
                }
                if answer.is_none() && waited_ms >= self.config.body_idle_timeout_ms {
                    return ChunkStep {
                        resume,
                        answer: Some(Err(HttpError::Timeout("server body idle"))),
                        late: true,
                    };
                }
                let ghost after = connection@;
                self.put(transport, connection);
                proof {
                    lemma_put_back(before, transport, after);
                }
                ChunkStep { resume, answer, late: false }
            },
        }
    }

    /// Gives the client leave to send its body, where it waits for that: the bytes to send.
    pub fn ensure_continue(&mut self, transport: TransportId) -> (data: Result<
        Option<Vec<u8>>,
        HttpError,
    >)
        ensures
            !old(self)@.has(transport) ==> {
                &&& data matches Err(error) && error@ == HttpErrorView::BodyClosed
                &&& final(self)@ == old(self)@
                &&& replies(*final(self)) == replies(*old(self))
            },
            old(self)@.has(transport) && old(self)@.at(transport).proto != Some(
                ServerStage::Await100,
            ) ==> {
                &&& data matches Ok(None)
                &&& final(self)@ == old(self)@
                &&& replies(*final(self)) == replies(*old(self))
            },
            old(self)@.has(transport) && old(self)@.at(transport).proto == Some(
                ServerStage::Await100,
            ) ==> {
                &&& final(self)@ == old(self)@.with(
                    transport,
                    old(self)@.at(transport).after_leave(LeaveNote::Leave(leave())),
                )
                &&& data matches Ok(Some(sent)) && sent@ == leave()
                &&& reply_changed(
                    *old(self),
                    *final(self),
                    transport,
                    Some(
                        ServerProto::RecvBody(
                            allowed(reply_at(*old(self), transport)->0->Await100_0),
                        ),
                    ),
                )
            },
    {
        let ghost before = self@;
        match self.take(transport) {
            None => Err(HttpError::BodyClosed),
            Some(connection) => {
                let mut connection = connection;
                let ghost reply = connection.proto;
                let data = connection.ensure_continue();
                let ghost after = connection@;
                let ghost left = connection.proto;
                self.put(transport, connection);
                proof {
                    lemma_put_back(before, transport, after);
                    assert(replies(*self) =~= replies(*old(self)).insert(
                        transport.number(),
                        left,
                    ));
                    assert(left == reply ==> replies(*self) =~= replies(*old(self)));
                }
                data
            },
        }
    }
}

/// A response before it is sent.
pub struct ServerResponse {
    pub status: u16,
    pub headers: HeaderMap,
    pub spec: BodySpec,
}

/// What speaks against a response: the headers that say how long its body is, or else a status
/// that is none; or there is no room for the header that has to be added.
pub open spec fn response_ok(
    response: ServerResponse,
    result: Result<ResponseDraft, HttpError>,
) -> bool {
    match framing_fault(response.headers, response.spec) {
        Some(text) => result matches Err(error) && error@ == HttpErrorView::Protocol(text),
        None => {
            ||| framing_header(response.headers, response.spec) is Some && !roomy(response.headers)
                && (result matches Err(error) && error@ == HttpErrorView::Protocol(
                "header 数量超过上限"@,
            ))
            ||| if 100 <= response.status <= 999 {
                result matches Ok(draft) && framed_response(response, draft.of())
                    && draft.response() == response_for(draft.of().status, draft.of().headers)
            } else {
                result matches Err(error) && error@ == HttpErrorView::Protocol(
                    "invalid status code"@,
                )
            }
        },
    }
}

/// A response as the protocol is given it: with the header added that says how long the body is,
/// where that has to be.
pub open spec fn framed_response(response: ServerResponse, of: ResponseView) -> bool {
    &&& of.status == response.status
    &&& match framing_header(response.headers, response.spec) {
        None => of.headers == response.headers,
        Some((name, value)) => header_values(of.headers) == header_values(
            response.headers,
        ).insert(name, seq![value]),
    }
}

/// Turns a response into the protocol's.
pub fn prepare_response(response: ServerResponse) -> (result: Result<ResponseDraft, HttpError>)
    ensures
        response_ok(response, result),
{
    let ServerResponse { status, headers, spec } = response;
    let mut headers = headers;
    match apply_body_headers(&mut headers, spec) {
        Err(error) => Err(error),
        Ok(()) => match new_response(status, headers) {
            Ok(response) => Ok(response),
            Err(reason) => Err(HttpError::Protocol(reason)),
        },
    }
}

impl ServerView {
    /// Why no response can be given on a connection now.
    pub open spec fn respond_obstacle(self, transport: TransportId) -> Option<HttpErrorView> {
        if self.has(transport) {
            self.at(transport).respond_obstacle()
        } else {
            Some(HttpErrorView::BodyClosed)
        }
    }
}

/// What giving a response comes to, and leaves: the head is what the connection's reply makes of
/// the response.
pub open spec fn gives(
    before: HttpServer,
    transport: TransportId,
    response: ResponseDraft,
    expected: Option<u64>,
    result: Result<(Seq<u8>, bool, bool), HttpErrorView>,
    after: HttpServer,
) -> bool {
    let server = before@;
    match server.respond_obstacle(transport) {
        Some(error) => {
            &&& result == Err::<(Seq<u8>, bool, bool), HttpErrorView>(error)
            &&& after@ == server
            &&& replies(after) == replies(before)
        },
        None => {
            let head = reply_head(
                offered(reply_at(before, transport)),
                response.response(),
                server.config.max_header_size,
                respond_stalled(),
            );
            &&& reply_fits(reply_note(head), response.of())
            &&& result == server.at(transport).respond_result(reply_note(head))
            &&& after@ == server.with(
                transport,
                server.at(transport).after_respond(reply_note(head), expected),
            )
            &&& reply_changed(before, after, transport, reply_left(head))
        },
    }
}

impl HttpServer {
    /// Gives the response to a request, once it is turned into the protocol's.
    pub fn respond_with(
        &mut self,
        transport: TransportId,
        response: ResponseDraft,
        expected: Option<u64>,
    ) -> (result: Result<Responded, HttpError>)
        ensures
            gives(
                *old(self),
                transport,
                response,
                expected,
                responded_view(result),
                *final(self),
            ),
    {
        let ghost before = self@;
        match self.take(transport) {
            None => Err(HttpError::BodyClosed),
            Some(connection) => {
                let mut connection = connection;
                let ghost reply = connection.proto;
                let result = connection.respond(response, expected, self.config.max_header_size);
                let ghost after = connection@;
                let ghost left = connection.proto;
                self.put(transport, connection);
                proof {
                    lemma_put_back(before, transport, after);
                    assert(replies(*self) =~= replies(*old(self)).insert(
                        transport.number(),
                        left,
                    ));
                    assert(left == reply ==> replies(*self) =~= replies(*old(self)));
                }
                result
            },
        }
    }

    /// Gives the response to a request.
    pub fn respond(&mut self, transport: TransportId, response: ServerResponse) -> (result: Result<
        Responded,
        HttpError,
    >)
        ensures
            exists|prepared: Result<ResponseDraft, HttpError>|
                {
                    &&& #[trigger] response_ok(response, prepared)
                    &&& match prepared {
                        Err(error) => {
                            &&& responded_view(result) == Err::<
                                (Seq<u8>, bool, bool),
                                HttpErrorView,
                            >(error@)
                            &&& *final(self) == *old(self)
                        },
                        Ok(draft) => gives(
                            *old(self),
                            transport,
                            draft,
                            response.spec.size(),
                            responded_view(result),
                            *final(self),
                        ),
                    }
                },
    {
        let expected = response.spec.expected();
        let prepared = prepare_response(response);
        assert(response_ok(response, prepared));
        match prepared {
            Err(error) => Err(error),
            Ok(response) => self.respond_with(transport, response, expected),
        }
    }
}

impl ServerView {
    /// What is answered to a chunk of a response that is not handed to the protocol.
    pub open spec fn write_answer(self, transport: TransportId, size: int) -> Option<
        Result<(), HttpErrorView>,
    > {
        if size == 0 {
            Some(Ok(()))
        } else if size > self.config.max_chunk_size {
            Some(
                Err(
                    HttpErrorView::BackpressureLimit {
                        actual: size,
                        limit: self.config.max_chunk_size as int,
                    },
                ),
            )
        } else if !self.has(transport) || self.at(transport).proto != Some(ServerStage::SendBody) {
            Some(Err(HttpErrorView::BodyClosed))
        } else {
            None
        }
    }

    /// The server after a request that only works while a body is sent.
    pub open spec fn sending_only(self, transport: TransportId) -> ServerView {
        if self.has(transport) {
            self.with(transport, self.at(transport).sending_only())
        } else {
            self
        }
    }

    /// Why a response's body cannot be ended now.
    pub open spec fn end_obstacle(self, transport: TransportId) -> Option<HttpErrorView> {
        if self.has(transport) {
            self.at(transport).end_obstacle()
        } else {
            Some(HttpErrorView::BodyClosed)
        }
    }
}

impl HttpServer {
    /// Writes a chunk of a response's body: the bytes to send, or nothing where there are none.
    pub fn write_chunk(&mut self, transport: TransportId, chunk: &Vec<u8>) -> (data: Result<
        Option<Vec<u8>>,
        HttpError,
    >)
        ensures
            match old(self)@.write_answer(transport, chunk@.len() as int) {
                Some(Ok(())) => data matches Ok(None) && final(self)@ == old(self)@,
                Some(Err(error)) => {
                    &&& data matches Err(given) && given@ == error
                    &&& final(self)@ == if error is BodyClosed {
                        old(self)@.sending_only(transport)
                    } else {
                        old(self)@
                    }
                },
                None => ({
                    let reply = reply_at(*old(self), transport)->0->SendBody_0;
                    let note = answer_note(reply, chunk@);
                    &&& may_answer(chunk@, note)
                    &&& match old(self)@.at(transport).chunk_result(chunk@.len() as int, note) {
                        Ok(bytes) => data matches Ok(Some(sent)) && sent@ == bytes,
                        Err(error) => data matches Err(given) && given@ == error,
                    }
                    &&& final(self)@ == old(self)@.with(
                        transport,
                        old(self)@.at(transport).after_chunk(chunk@.len() as int, note),
                    )
                    &&& reply_changed(
                        *old(self),
                        *final(self),
                        transport,
                        answer_left(reply, chunk@),
                    )
                }),
            },
            others_kept(*old(self), *final(self), transport),
    {
        let size: usize = chunk.len();
        if size == 0 {
            return Ok(None);
        }
        let limit: usize = self.config.max_chunk_size;
        if size > limit {
            return Err(HttpError::BackpressureLimit { actual: size, limit });
        }
        let ghost before = self@;
        match self.take(transport) {
            None => Err(HttpError::BodyClosed),
            Some(connection) => {
                let mut connection = connection;
                let ghost x = connection@;
                let data = connection.write_chunk(chunk);
                let ghost after = connection@;
                let ghost left = connection.proto;
                self.put(transport, connection);
                proof {
                    lemma_put_back(before, transport, after);
                    assert(replies(*self) =~= replies(*old(self)).insert(
                        transport.number(),
                        left,
                    ));
                    assert(replies(*self).remove(transport.number()) =~= replies(
                        *old(self),
                    ).remove(transport.number()));
                }
                match data {
                    Ok(data) => Ok(Some(data)),
                    Err(error) => Err(error),
                }
            },
        }
    }

    /// Ends a response's body: the bytes to send, and whether the connection is to be closed
    /// then.
    pub fn finish(&mut self, transport: TransportId) -> (result: Result<(Vec<u8>, bool), HttpError>)
        ensures
            match old(self)@.end_obstacle(transport) {
                Some(error) => {
                    &&& ended_view(result) == Err::<(Seq<u8>, bool), HttpErrorView>(error)
                    &&& final(self)@ == old(self)@.sending_only(transport)
                },
                None => ({
                    let reply = reply_at(*old(self), transport)->0->SendBody_0;
                    let note = end_note(reply);
                    &&& may_end(note)
                    &&& ended_view(result) == old(self)@.at(transport).end_result(note)
                    &&& final(self)@ == old(self)@.with(
                        transport,
                        old(self)@.at(transport).after_end(note),
                    )
                    &&& reply_changed(*old(self), *final(self), transport, end_left(reply))
                }),
            },
            others_kept(*old(self), *final(self), transport),
    {
        let ghost before = self@;
        match self.take(transport) {
            None => Err(HttpError::BodyClosed),
            Some(connection) => {
                let mut connection = connection;
                let result = connection.finish();
                let ghost after = connection@;
                let ghost left = connection.proto;
                self.put(transport, connection);
                proof {
                    lemma_put_back(before, transport, after);
                    assert(replies(*self) =~= replies(*old(self)).insert(
                        transport.number(),
                        left,
                    ));
                    assert(replies(*self).remove(transport.number()) =~= replies(
                        *old(self),
                    ).remove(transport.number()));
                }
                result
            },
        }
    }
}

/// The start of a WebSocket: its number, the response to send, and what came in behind the
/// request.
pub struct Upgrade {
    pub id: u64,
    pub data: Vec<u8>,
    pub tail: Vec<u8>,
}

/// What the start of a WebSocket that may have failed says.
pub open spec fn upgrade_view(result: Result<Upgrade, HttpError>) -> Result<
    (u64, Seq<u8>, Seq<u8>),
    HttpErrorView,
> {
    match result {
        Ok(upgrade) => Ok((upgrade.id, upgrade.data@, upgrade.tail@)),
        Err(error) => Err(error@),
    }
}

impl ServerView {
    /// The server with one more number for a WebSocket used.
    pub open spec fn numbered(self) -> ServerView {
        ServerView { next_websocket: following(self.next_websocket), ..self }
    }

    /// Why a connection cannot be switched to a WebSocket now.
    pub open spec fn switch_obstacle(self, transport: TransportId) -> Option<HttpErrorView> {
        if self.has(transport) {
            self.at(transport).switch_obstacle()
        } else {
            Some(HttpErrorView::BodyClosed)
        }
    }
}

impl ServerView {
    /// What the start of a WebSocket comes to: its number, the bytes to send, and the bytes that
    /// came in behind the request.
    pub open spec fn upgrade_result(
        self,
        transport: TransportId,
        note: Result<(Seq<u8>, ReplyEnd), HttpErrorView>,
    ) -> Result<(u64, Seq<u8>, Seq<u8>), HttpErrorView> {
        match self.switch_obstacle(transport) {
            Some(error) => Err(error),
            None => match self.at(transport).switch_result(note) {
                Ok(data) => Ok((following(self.next_websocket), data, self.at(transport).input)),
                Err(error) => Err(error),
            },
        }
    }

    /// The server after that.
    pub open spec fn upgrading(
        self,
        transport: TransportId,
        note: Result<(Seq<u8>, ReplyEnd), HttpErrorView>,
    ) -> ServerView {
        match self.switch_obstacle(transport) {
            Some(_) => self.numbered(),
            None => self.numbered().with(transport, self.at(transport).after_switch(note)),
        }
    }

    /// The server when a connection serves a WebSocket.
    pub open spec fn serving(self, transport: TransportId, id: u64) -> ServerView {
        self.with(transport, self.at(transport).switched(id))
    }
}

impl HttpServer {
    /// Switches a connection to a WebSocket, as far as the response, which has these headers.
    pub fn upgrade_websocket(&mut self, transport: TransportId, headers: HeaderMap) -> (result:
        Result<Upgrade, HttpError>)
        ensures
            match old(self)@.switch_obstacle(transport) {
                Some(error) => {
                    &&& upgrade_view(result) == Err::<(u64, Seq<u8>, Seq<u8>), HttpErrorView>(error)
                    &&& final(self)@ == old(self)@.numbered()
                },
                None => ({
                    let note = switch_note(
                        reply_at(*old(self), transport),
                        headers,
                        old(self)@.config.max_header_size,
                    );
                    &&& reply_fits(note, switching(headers))
                    &&& upgrade_view(result) == match old(self)@.at(transport).switch_result(note) {
                        Ok(data) => Ok(
                            (
                                following(old(self)@.next_websocket),
                                data,
                                old(self)@.at(transport).input,
                            ),
                        ),
                        Err(error) => Err(error),
                    }
                    &&& final(self)@ == old(self)@.numbered().with(
                        transport,
                        old(self)@.at(transport).after_switch(note),
                    )
                    &&& reply_changed(*old(self), *final(self), transport, None)
                }),
            },
            others_kept(*old(self), *final(self), transport),
            ({
                let note = switch_note(
                    reply_at(*old(self), transport),
                    headers,
                    old(self)@.config.max_header_size,
                );
                &&& upgrade_view(result) == old(self)@.upgrade_result(transport, note)
                &&& final(self)@ == old(self)@.upgrading(transport, note)
            }),
    {
        let ghost before = self@;
        self.next_websocket = next_number(self.next_websocket);
        let id: u64 = self.next_websocket;
        let ghost numbered = self@;
        assert(numbered =~= before.numbered());
        match self.take(transport) {
            None => Err(HttpError::BodyClosed),
            Some(connection) => {
                let mut connection = connection;
                let result = connection.switch(headers, self.config.max_header_size);
                let ghost after = connection@;
                let ghost left = connection.proto;
                self.put(transport, connection);
                proof {
                    lemma_put_back(numbered, transport, after);
                    assert(replies(*self) =~= replies(*old(self)).insert(
                        transport.number(),
                        left,
                    ));
                    assert(replies(*self).remove(transport.number()) =~= replies(
                        *old(self),
                    ).remove(transport.number()));
                }
                match result {
                    Ok(Switched { data, tail }) => Ok(Upgrade { id, data, tail }),
                    Err(error) => Err(error),
                }
            },
        }
    }

    /// A connection serves a WebSocket from now on.
    pub fn serve_socket(&mut self, transport: TransportId, id: u64) -> (result: Result<
        (),
        HttpError,
    >)
        ensures
            result is Ok <==> old(self)@.has(transport),
            result matches Err(error) ==> error@ == HttpErrorView::BodyClosed && final(self)@
                == old(self)@ && replies(*final(self)) == replies(*old(self)),
            result is Ok ==> reply_changed(
                *old(self),
                *final(self),
                transport,
                Some(ServerProto::WebSocket(id)),
            ),
            result is Ok ==> final(self)@ == old(self)@.with(
                transport,
                old(self)@.at(transport).switched(id),
            ),
            result is Ok ==> final(self)@ == old(self)@.serving(transport, id),
    {
        let ghost before = self@;
        match self.take(transport) {
            None => Err(HttpError::BodyClosed),
            Some(connection) => {
                let mut connection = connection;
                connection.serve_socket(id);
                let ghost after = connection@;
                let ghost left = connection.proto;
                self.put(transport, connection);
                proof {
                    lemma_put_back(before, transport, after);
                    assert(replies(*self) =~= replies(*old(self)).insert(
                        transport.number(),
                        left,
                    ));
                }
                Ok(())
            },
        }
    }
}

/// A connection whose request is answered is ready for the next one, whatever came before; and
/// what came in behind the request is kept for it.
pub proof fn law_a_connection_starts_over(server: ServerView, transport: TransportId)
    requires
        server.has(transport),
    ensures
        server.finished(transport, false, true).at(transport).proto == Some(
            ServerStage::RecvRequest,
        ),
        server.finished(transport, false, true).at(transport).input == server.at(transport).input,
        server.finished(transport, false, true).at(transport).chunks.len() == 0,
        server.finish_next(transport, false, true) matches FinishNext::Await {
            generation,
            after_ms,
            buffered,
        } && buffered == (server.at(transport).input.len() > 0),
{
}

/// The timeout of an earlier request does not touch a connection that went on.
pub proof fn law_an_earlier_timeout_is_void(server: ServerView, transport: TransportId)
    requires
        server.has(transport),
    ensures
        !server.finished(transport, false, true).awaits(
            transport,
            server.at(transport).header_generation,
        ),
{
}

} // verus!
