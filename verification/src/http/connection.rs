//! A server's connection: how requests are read on it.

use crate::http::body::{BodySource, IncomingBody};
use crate::http::call::BodyRead;
use crate::http::error::HttpError;
#[allow(unused_imports)]
use crate::http::error::{over_limit, HttpErrorView};
use crate::http::exchange::drop_front;
#[allow(unused_imports)]
use crate::http::exchange::total;
#[allow(unused_imports)]
use crate::http::origin::optional;
use crate::http::reply::{
    after_request, after_request_body, read_request, read_request_body, AfterRequest,
    AfterRequestBody, Attending, RequestRead, ServerProto,
};
#[allow(unused_imports)]
use crate::http::reply::{
    request_body_next, request_body_read, request_next, request_read, server_stage, ServerStage,
};
use crate::http::transport::TransportId;
use std::collections::VecDeque;
use ureq_proto::http::Request as HttpRequest;
use ureq_proto::server::state::RecvBody;
use ureq_proto::server::Reply;
use vstd::prelude::*;

verus! {

/// A listener of a server.
#[derive(Debug, Clone, Copy, PartialEq, Eq, Structural, Hash)]
pub struct HttpListenerId(pub u64);

/// A connection.
pub struct ServerConnection {
    pub transport: TransportId,
    /// The listener that accepted it.
    pub listener: HttpListenerId,
    pub peer: String,
    pub tls: bool,
    /// How far the protocol has come; nothing after it was broken.
    pub proto: Option<ServerProto>,
    /// What came in and is not read yet.
    pub input: Vec<u8>,
    /// The parts of the request's body that nobody has taken yet.
    pub chunks: VecDeque<Vec<u8>>,
    pub body_ended: bool,
    /// What broke the connection.
    pub error: Option<String>,
    /// Whether the connection was asked to receive nothing for a while.
    pub paused: bool,
    /// How long the response's body is to be, where that was said.
    pub response_expected: Option<u64>,
    /// How much of the response's body was written.
    pub response_written: u64,
    /// Counts the requests that were awaited.
    pub header_generation: u64,
}

/// What a [`ServerConnection`] holds.
#[verifier::ext_equal]
pub struct ConnectionView {
    pub transport: TransportId,
    pub listener: HttpListenerId,
    pub peer: Seq<char>,
    pub tls: bool,
    pub proto: Option<ServerStage>,
    pub input: Seq<u8>,
    pub chunks: Seq<Seq<u8>>,
    pub body_ended: bool,
    pub error: Option<Seq<char>>,
    pub paused: bool,
    pub response_expected: Option<u64>,
    pub response_written: u64,
    pub header_generation: u64,
}

impl View for ServerConnection {
    type V = ConnectionView;

    open spec fn view(&self) -> ConnectionView {
        ConnectionView {
            transport: self.transport,
            listener: self.listener,
            peer: self.peer@,
            tls: self.tls,
            proto: server_stage(self.proto),
            input: self.input@,
            chunks: self.chunks@.map_values(|c: Vec<u8>| c@),
            body_ended: self.body_ended,
            error: optional(self.error),
            paused: self.paused,
            response_expected: self.response_expected,
            response_written: self.response_written,
            header_generation: self.header_generation,
        }
    }
}

/// The right to respond to a request.
#[derive(Debug, PartialEq, Eq, Structural)]
pub struct ServerResponder {
    pub transport: TransportId,
    /// Whether no response was given yet.
    pub active: bool,
}

impl ServerResponder {
    /// Takes note of whether a response was given.
    pub fn responded(&mut self, given: bool)
        ensures
            final(self).transport == old(self).transport,
            final(self).active == (old(self).active && !given),
    {
        if given {
            self.active = false;
        }
    }

    /// The connection to close when nobody will respond any more.
    pub fn release(&self) -> (transport: Option<TransportId>)
        ensures
            transport == if self.active {
                Some(self.transport)
            } else {
                None
            },
    {
        if self.active {
            Some(self.transport)
        } else {
            None
        }
    }
}

/// A request that was received.
pub struct ServerRequest {
    pub request: HttpRequest<()>,
    pub body: IncomingBody,
    pub peer: String,
    pub tls: bool,
    pub listener: HttpListenerId,
    pub responder: ServerResponder,
}

/// What a [`ServerRequest`] says.
#[verifier::ext_equal]
pub struct ServerRequestView {
    pub request: HttpRequest<()>,
    pub body: IncomingBody,
    pub peer: Seq<char>,
    pub tls: bool,
    pub listener: HttpListenerId,
    pub responder: ServerResponder,
}

impl View for ServerRequest {
    type V = ServerRequestView;

    open spec fn view(&self) -> ServerRequestView {
        ServerRequestView {
            request: self.request,
            body: self.body,
            peer: self.peer@,
            tls: self.tls,
            listener: self.listener,
            responder: self.responder,
        }
    }
}

/// What a list of requests says.
pub open spec fn requests_view(requests: Seq<ServerRequest>) -> Seq<ServerRequestView> {
    requests.map_values(|r: ServerRequest| r@)
}

impl ConnectionView {
    /// How many bytes wait to be read or taken.
    pub open spec fn buffered(self) -> nat {
        self.input.len() + total(self.chunks)
    }

    /// A request that was received on the connection.
    pub open spec fn request(self, request: HttpRequest<()>) -> ServerRequestView {
        ServerRequestView {
            request,
            body: IncomingBody::fresh(BodySource::Server(self.transport)),
            peer: self.peer,
            tls: self.tls,
            listener: self.listener,
            responder: ServerResponder { transport: self.transport, active: true },
        }
    }

    /// Whether the connection is to receive nothing for a while.
    pub open spec fn to_pause(self, high: usize) -> bool {
        !self.body_ended && self.buffered() >= high && !self.paused
    }

    /// Whether a paused connection is to receive again.
    pub open spec fn to_resume(self, low: usize) -> bool {
        self.paused && self.buffered() <= low
    }
}

/// Where reading leads when the head of a request has come.
pub enum RequestNext {
    Await100,
    Body,
    Provide,
    Stuck,
}

/// Where reading leads after a part of a request's body.
#[verifier::ext_equal]
pub enum RequestBodyNext {
    More,
    Over,
    Failed(Seq<char>),
}

/// One step of reading what came in, with what the protocol made of it.
#[verifier::ext_equal]
#[allow(inconsistent_fields)]
pub enum ServeStep {
    /// The protocol was broken before.
    Lost,
    Request { used: int, request: HttpRequest<()>, next: RequestNext },
    RequestPartial,
    RequestFailed(Seq<char>),
    Body { used: int, data: Seq<u8>, next: RequestBodyNext },
    BodyFailed(Seq<char>),
    /// Nothing can be read at this stage, or nothing is there.
    Idle,
}

/// A connection that is read, the requests that came, and what broke it.
#[verifier::ext_equal]
pub struct ServeView {
    pub connection: ConnectionView,
    pub requests: Seq<ServerRequestView>,
    pub failed: Option<HttpErrorView>,
    /// Whether more can be read.
    pub more: bool,
}

/// What is said where a head was read whole and the protocol goes nowhere from there.
pub open spec fn request_stuck() -> Seq<char> {
    "请求状态无法推进"@
}

/// Where a reply goes when the head of a request is read.
pub open spec fn request_lead(next: AfterRequest) -> RequestNext {
    match next {
        AfterRequest::Send100(_) => RequestNext::Await100,
        AfterRequest::RecvBody(_) => RequestNext::Body,
        AfterRequest::Provide(_) => RequestNext::Provide,
        AfterRequest::Stuck => RequestNext::Stuck,
    }
}

/// Where a reply goes after a part of a request's body.
pub open spec fn request_body_lead(next: AfterRequestBody) -> RequestBodyNext {
    match next {
        AfterRequestBody::More(_) => RequestBodyNext::More,
        AfterRequestBody::Provide(_) => RequestBodyNext::Over,
        AfterRequestBody::Failed(reason) => RequestBodyNext::Failed(reason@),
    }
}

/// What a reply that awaits a request makes of an input.
pub open spec fn request_step(reply: Attending, input: Seq<u8>) -> ServeStep {
    match request_read(reply.reply(), input) {
        RequestRead::Failed(reason) => ServeStep::RequestFailed(reason@),
        RequestRead::Partial(_) => ServeStep::RequestPartial,
        RequestRead::Whole { used, request, reply } => ServeStep::Request {
            used: used as int,
            request,
            next: request_lead(request_next(reply)),
        },
    }
}

/// What a reply that receives a request's body makes of an input.
pub open spec fn request_body_step(
    reply: Reply<RecvBody>,
    input: Seq<u8>,
    room: int,
) -> ServeStep {
    let (read, after) = request_body_read(reply, input, room);
    match read {
        Err(reason) => ServeStep::BodyFailed(reason),
        Ok((used, data)) => ServeStep::Body {
            used,
            data,
            next: request_body_lead(request_body_next(after)),
        },
    }
}

/// What a reply makes of an input, with a buffer of `room` bytes for a part of the body.
pub open spec fn serve_step(proto: Option<ServerProto>, input: Seq<u8>, room: int) -> ServeStep {
    match proto {
        None => ServeStep::Lost,
        Some(ServerProto::RecvRequest(reply)) => request_step(reply, input),
        Some(ServerProto::RecvBody(reply)) => if input.len() == 0 {
            ServeStep::Idle
        } else {
            request_body_step(reply, input, room)
        },
        Some(_) => ServeStep::Idle,
    }
}

/// The reply after that. A head may have `limit` bytes.
pub open spec fn serve_after(
    proto: Option<ServerProto>,
    input: Seq<u8>,
    room: int,
    limit: usize,
) -> Option<ServerProto> {
    match proto {
        Some(ServerProto::RecvRequest(reply)) => match request_read(reply.reply(), input) {
            RequestRead::Failed(_) => None,
            RequestRead::Partial(after) => if input.len() > limit {
                None
            } else {
                Some(ServerProto::RecvRequest(after))
            },
            RequestRead::Whole { used, request, reply } => request_left(request_next(reply)),
        },
        Some(ServerProto::RecvBody(reply)) => if input.len() == 0 {
            proto
        } else {
            let (read, after) = request_body_read(reply, input, room);
            if read is Err {
                None
            } else {
                request_body_left(request_body_next(after))
            }
        },
        _ => proto,
    }
}

/// The reply that goes on when the head of a request is read.
pub open spec fn request_left(next: AfterRequest) -> Option<ServerProto> {
    match next {
        AfterRequest::Send100(reply) => Some(ServerProto::Await100(reply)),
        AfterRequest::RecvBody(reply) => Some(ServerProto::RecvBody(reply)),
        AfterRequest::Provide(reply) => Some(ServerProto::Provide(reply)),
        AfterRequest::Stuck => None,
    }
}

/// The reply that goes on after a part of a request's body.
pub open spec fn request_body_left(next: AfterRequestBody) -> Option<ServerProto> {
    match next {
        AfterRequestBody::More(reply) => Some(ServerProto::RecvBody(reply)),
        AfterRequestBody::Provide(reply) => Some(ServerProto::Provide(reply)),
        AfterRequestBody::Failed(_) => None,
    }
}

/// A connection that is read, and its reply, after so many steps. What each step is follows from
/// the reply.
pub open spec fn served(
    start: ServeView,
    proto: Option<ServerProto>,
    limit: usize,
    room: int,
    turns: nat,
) -> (ServeView, Option<ServerProto>)
    decreases turns,
{
    if turns == 0 {
        (start, proto)
    } else {
        let (view, reply) = served(start, proto, limit, room, (turns - 1) as nat);
        let input = view.connection.input;
        (
            view.next(serve_step(reply, input, room), limit),
            serve_after(reply, input, room, limit),
        )
    }
}

/// A step takes no more than there is, gives no more of a body than there is room for, and does
/// not get stuck.
pub open spec fn serve_fits(step: ServeStep, input: Seq<u8>, room: int) -> bool {
    match step {
        ServeStep::Request { used, request, next } => {
            &&& 0 <= used <= input.len()
            &&& !(next is Stuck)
        },
        ServeStep::Body { used, data, next } => {
            &&& 0 <= used <= input.len()
            &&& data.len() <= room
            &&& !(next is Failed)
        },
        _ => true,
    }
}

impl ServeView {
    /// Before anything is read.
    pub open spec fn start(connection: ConnectionView) -> ServeView {
        ServeView { connection, requests: Seq::empty(), failed: None, more: true }
    }

    /// Before more is read, when some requests have come.
    pub open spec fn resumed(
        connection: ConnectionView,
        requests: Seq<ServerRequestView>,
    ) -> ServeView {
        ServeView { connection, requests, failed: None, more: true }
    }

    /// Reading breaks off with an error.
    pub open spec fn fails(self, connection: ConnectionView, error: HttpErrorView) -> ServeView {
        ServeView {
            connection: ConnectionView { proto: None, ..connection },
            failed: Some(error),
            more: false,
            ..self
        }
    }

    /// Whether a step can be the next one: a reply at this stage makes it of the input. No part of
    /// a body is longer than `room`.
    pub open spec fn allows(self, step: ServeStep, room: int) -> bool {
        let x = self.connection;
        &&& self.more
        &&& exists|proto: Option<ServerProto>|
            server_stage(proto) == x.proto && step == #[trigger] serve_step(proto, x.input, room)
        &&& serve_fits(step, x.input, room)
    }

    /// After one more step. A head may have `limit` bytes.
    pub open spec fn next(self, step: ServeStep, limit: usize) -> ServeView {
        let x = self.connection;
        match step {
            ServeStep::Lost => ServeView { more: false, ..self },
            ServeStep::Request { used, request, next } => {
                let x = ConnectionView { input: x.input.skip(used), ..x };
                match next {
                    RequestNext::Stuck => self.fails(x, HttpErrorView::Protocol(request_stuck())),
                    _ => {
                        let x = ConnectionView {
                            body_ended: next is Provide,
                            proto: Some(
                                match next {
                                    RequestNext::Await100 => ServerStage::Await100,
                                    RequestNext::Body => ServerStage::RecvBody,
                                    _ => ServerStage::Provide,
                                },
                            ),
                            ..x
                        };
                        ServeView {
                            connection: x,
                            requests: self.requests.push(x.request(request)),
                            ..self
                        }
                    },
                }
            },
            ServeStep::RequestPartial => if x.input.len() > limit {
                self.fails(x, over_limit(x.input.len() as int, limit))
            } else {
                ServeView { more: false, ..self }
            },
            ServeStep::RequestFailed(reason) => self.fails(x, HttpErrorView::Protocol(reason)),
            ServeStep::Body { used, data, next } => {
                let x = ConnectionView {
                    input: x.input.skip(used),
                    chunks: if data.len() > 0 {
                        x.chunks.push(data)
                    } else {
                        x.chunks
                    },
                    ..x
                };
                match next {
                    RequestBodyNext::Failed(reason) => self.fails(
                        x,
                        HttpErrorView::Protocol(reason),
                    ),
                    RequestBodyNext::More => ServeView {
                        connection: x,
                        more: used > 0 || data.len() > 0,
                        ..self
                    },
                    RequestBodyNext::Over => ServeView {
                        connection: ConnectionView {
                            proto: Some(ServerStage::Provide),
                            body_ended: true,
                            ..x
                        },
                        more: used > 0 || data.len() > 0,
                        ..self
                    },
                }
            },
            ServeStep::BodyFailed(reason) => self.fails(x, HttpErrorView::Protocol(reason)),
            ServeStep::Idle => ServeView { more: false, ..self },
        }
    }

    /// After several steps.
    pub open spec fn run(self, steps: Seq<ServeStep>, limit: usize) -> ServeView
        decreases steps.len(),
    {
        if steps.len() == 0 {
            self
        } else {
            self.run(steps.drop_last(), limit).next(steps.last(), limit)
        }
    }

    /// Whether each step can follow the ones before.
    pub open spec fn admits(self, steps: Seq<ServeStep>, limit: usize, room: int) -> bool
        decreases steps.len(),
    {
        steps.len() > 0 ==> {
            &&& self.admits(steps.drop_last(), limit, room)
            &&& self.run(steps.drop_last(), limit).allows(steps.last(), room)
        }
    }

    /// Whether the steps go on until nothing more can be read, or for as many turns as can be
    /// counted.
    pub open spec fn ends(self, steps: Seq<ServeStep>, limit: usize) -> bool {
        !self.run(steps, limit).more || steps.len() == u64::MAX
    }
}

/// What the protocol made of the input while a request was awaited.
pub enum RequestOutcome {
    Failed(String),
    Partial(Attending),
    Whole { used: usize, request: HttpRequest<()>, after: AfterRequest },
}

impl RequestOutcome {
    /// The step that this is.
    pub open spec fn step(self) -> ServeStep {
        match self {
            RequestOutcome::Failed(reason) => ServeStep::RequestFailed(reason@),
            RequestOutcome::Partial(_) => ServeStep::RequestPartial,
            RequestOutcome::Whole { used, request, after } => ServeStep::Request {
                used: used as int,
                request,
                next: request_lead(after),
            },
        }
    }

    /// The reply after it, with so many bytes of input. A head may have `limit` bytes.
    pub open spec fn left(self, size: int, limit: usize) -> Option<ServerProto> {
        match self {
            RequestOutcome::Failed(_) => None,
            RequestOutcome::Partial(reply) => if size > limit {
                None
            } else {
                Some(ServerProto::RecvRequest(reply))
            },
            RequestOutcome::Whole { used, request, after } => request_left(after),
        }
    }

    /// Asks the protocol.
    fn consult(reply: Attending, input: &Vec<u8>) -> (outcome: RequestOutcome)
        ensures
            forall|room: int, limit: usize|
                outcome.left(input@.len() as int, limit) == #[trigger] serve_after(
                    Some(ServerProto::RecvRequest(reply)),
                    input@,
                    room,
                    limit,
                ),
            outcome.step() == request_step(reply, input@),
            serve_fits(outcome.step(), input@, 0),
    {
        match read_request(reply, input.as_slice()) {
            RequestRead::Failed(reason) => RequestOutcome::Failed(reason),
            RequestRead::Partial(reply) => RequestOutcome::Partial(reply),
            RequestRead::Whole { used, request, reply } => {
                let after = after_request(reply);
                RequestOutcome::Whole { used, request, after }
            },
        }
    }
}

/// What the protocol made of the input while a request's body was received.
pub enum RequestBodyOutcome {
    Failed(String),
    Read { used: usize, data: Vec<u8>, after: AfterRequestBody },
}

impl RequestBodyOutcome {
    /// The step that this is.
    pub open spec fn step(self) -> ServeStep {
        match self {
            RequestBodyOutcome::Failed(reason) => ServeStep::BodyFailed(reason@),
            RequestBodyOutcome::Read { used, data, after } => ServeStep::Body {
                used: used as int,
                data: data@,
                next: request_body_lead(after),
            },
        }
    }

    /// The reply after it.
    pub open spec fn left(self) -> Option<ServerProto> {
        match self {
            RequestBodyOutcome::Failed(_) => None,
            RequestBodyOutcome::Read { used, data, after } => request_body_left(after),
        }
    }

    /// Asks the protocol.
    fn consult(reply: Reply<RecvBody>, input: &Vec<u8>, room: usize) -> (outcome:
        RequestBodyOutcome)
        requires
            input@.len() > 0,
        ensures
            forall|limit: usize|
                outcome.left() == #[trigger] serve_after(
                    Some(ServerProto::RecvBody(reply)),
                    input@,
                    room as int,
                    limit,
                ),
            outcome.step() == request_body_step(reply, input@, room as int),
            serve_fits(outcome.step(), input@, room as int),
    {
        let mut reply = reply;
        match read_request_body(&mut reply, input.as_slice(), room) {
            BodyRead::Failed(reason) => RequestBodyOutcome::Failed(reason),
            BodyRead::Read { used, data } => {
                let after = after_request_body(reply);
                RequestBodyOutcome::Read { used, data, after }
            },
        }
    }
}

/// What one step of reading leaves.
pub struct ServeDone {
    pub more: bool,
    pub failed: Option<HttpError>,
}

/// The error that broke reading off, where there was one.
pub open spec fn failure_view(failed: Option<HttpError>) -> Option<HttpErrorView> {
    match failed {
        Some(error) => Some(error@),
        None => None,
    }
}

impl ConnectionView {
    /// The connection with its reply at a stage.
    pub open spec fn at(self, stage: ServerStage) -> ConnectionView {
        ConnectionView { proto: Some(stage), ..self }
    }
}

impl ServerConnection {
    /// The connection, the requests that came, and what broke it, after reading.
    pub open spec fn serve_view(
        connection: ServerConnection,
        requests: Seq<ServerRequest>,
        done: ServeDone,
    ) -> ServeView {
        ServeView {
            connection: connection@,
            requests: requests_view(requests),
            failed: failure_view(done.failed),
            more: done.more,
        }
    }

    /// Goes on after the protocol was asked for a request. The reply was taken out of the
    /// connection for that.
    pub fn request_came(
        &mut self,
        outcome: RequestOutcome,
        limit: usize,
        requests: &mut Vec<ServerRequest>,
    ) -> (done: ServeDone)
        requires
            old(self).proto is None,
            outcome.step() matches ServeStep::Request { used, request, next } ==> used
                <= old(self)@.input.len(),
        ensures
            final(self).proto == outcome.left(old(self)@.input.len() as int, limit),
            ServerConnection::serve_view(*final(self), final(requests)@, done) == ServeView::resumed(
                old(self)@.at(ServerStage::RecvRequest),
                requests_view(old(requests)@),
            ).next(outcome.step(), limit),
    {
        let ghost start = ServeView::resumed(
            self@.at(ServerStage::RecvRequest),
            requests_view(requests@),
        );
        let ghost step = outcome.step();
        match outcome {
            RequestOutcome::Failed(reason) => {
                let done = ServeDone { more: false, failed: Some(HttpError::Protocol(reason)) };
                assert(ServerConnection::serve_view(*self, requests@, done) =~= start.next(step, limit));
                done
            },
            RequestOutcome::Partial(reply) => {
                if self.input.len() > limit {
                    let done = ServeDone {
                        more: false,
                        failed: Some(
                            HttpError::BackpressureLimit { actual: self.input.len(), limit },
                        ),
                    };
                    assert(ServerConnection::serve_view(*self, requests@, done) =~= start.next(
                        step,
                        limit,
                    ));
                    done
                } else {
                    self.proto = Some(ServerProto::RecvRequest(reply));
                    let done = ServeDone { more: false, failed: None };
                    assert(ServerConnection::serve_view(*self, requests@, done) =~= start.next(
                        step,
                        limit,
                    ));
                    done
                }
            },
            RequestOutcome::Whole { used, request, after } => {
                drop_front(&mut self.input, used);
                let ended = match after {
                    AfterRequest::Send100(reply) => {
                        self.proto = Some(ServerProto::Await100(reply));
                        false
                    },
                    AfterRequest::RecvBody(reply) => {
                        self.proto = Some(ServerProto::RecvBody(reply));
                        false
                    },
                    AfterRequest::Provide(reply) => {
                        self.proto = Some(ServerProto::Provide(reply));
                        true
                    },
                    AfterRequest::Stuck => {
                        let done = ServeDone {
                            more: false,
                            failed: Some(HttpError::Protocol("请求状态无法推进".to_owned())),
                        };
                        assert(ServerConnection::serve_view(*self, requests@, done) =~= start.next(
                            step,
                            limit,
                        ));
                        return done;
                    },
                };
                self.body_ended = ended;
                let received = ServerRequest {
                    request,
                    body: IncomingBody::server(self.transport),
                    peer: self.peer.clone(),
                    tls: self.tls,
                    listener: self.listener,
                    responder: ServerResponder { transport: self.transport, active: true },
                };
                let ghost earlier = requests@;
                requests.push(received);
                assert(requests_view(requests@) =~= requests_view(earlier).push(received@));
                let done = ServeDone { more: true, failed: None };
                assert(ServerConnection::serve_view(*self, requests@, done) =~= start.next(step, limit));
                done
            },
        }
    }

    /// Goes on after the protocol was asked for a part of a request's body. The reply was taken
    /// out of the connection for that.
    pub fn request_body_came(
        &mut self,
        outcome: RequestBodyOutcome,
        requests: &Vec<ServerRequest>,
        limit: usize,
    ) -> (done: ServeDone)
        requires
            old(self).proto is None,
            outcome.step() matches ServeStep::Body { used, data, next } ==> used
                <= old(self)@.input.len(),
        ensures
            final(self).proto == outcome.left(),
            ServerConnection::serve_view(*final(self), requests@, done) == ServeView::resumed(
                old(self)@.at(ServerStage::RecvBody),
                requests_view(requests@),
            ).next(outcome.step(), limit),
    {
        let ghost before = self@;
        let ghost start = ServeView::resumed(self@.at(ServerStage::RecvBody), requests_view(requests@));
        let ghost step = outcome.step();
        match outcome {
            RequestBodyOutcome::Failed(reason) => {
                let done = ServeDone { more: false, failed: Some(HttpError::Protocol(reason)) };
                assert(ServerConnection::serve_view(*self, requests@, done) =~= start.next(step, limit));
                done
            },
            RequestBodyOutcome::Read { used, data, after } => {
                let more = used > 0 || data.len() > 0;
                drop_front(&mut self.input, used);
                if data.len() > 0 {
                    self.chunks.push_back(data);
                    assert(self@.chunks =~= before.chunks.push(data@));
                }
                match after {
                    AfterRequestBody::More(reply) => {
                        self.proto = Some(ServerProto::RecvBody(reply));
                    },
                    AfterRequestBody::Provide(reply) => {
                        self.proto = Some(ServerProto::Provide(reply));
                        self.body_ended = true;
                    },
                    AfterRequestBody::Failed(reason) => {
                        let done = ServeDone {
                            more: false,
                            failed: Some(HttpError::Protocol(reason)),
                        };
                        assert(ServerConnection::serve_view(*self, requests@, done) =~= start.next(
                            step,
                            limit,
                        ));
                        return done;
                    },
                }
                let done = ServeDone { more, failed: None };
                assert(ServerConnection::serve_view(*self, requests@, done) =~= start.next(step, limit));
                done
            },
        }
    }

    /// Reads on by one step.
    fn process_step(&mut self, limit: usize, room: usize, requests: &mut Vec<ServerRequest>) -> (
    done: ServeDone)
        ensures
            final(self).proto == serve_after(old(self).proto, old(self)@.input, room as int, limit),
            ({
                let step = serve_step(old(self).proto, old(self)@.input, room as int);
                let start = ServeView::resumed(old(self)@, requests_view(old(requests)@));
                &&& start.allows(step, room as int)
                &&& ServerConnection::serve_view(*final(self), final(requests)@, done)
                    == start.next(step, limit)
            }),
    {
        let ghost start = ServeView::resumed(self@, requests_view(requests@));
        match self.proto.take() {
            None => {
                let done = ServeDone { more: false, failed: None };
                assert(start.allows(ServeStep::Lost, room as int));
                assert(ServerConnection::serve_view(*self, requests@, done) =~= start.next(
                    ServeStep::Lost,
                    limit,
                ));
                done
            },
            Some(ServerProto::RecvRequest(reply)) => {
                let outcome = RequestOutcome::consult(reply, &self.input);
                let ghost step = outcome.step();
                assert(self@.at(ServerStage::RecvRequest) =~= start.connection);
                let done = self.request_came(outcome, limit, requests);
                assert(start.allows(step, room as int));
                assert(ServerConnection::serve_view(*self, requests@, done) == start.next(step, limit));
                done
            },
            Some(ServerProto::RecvBody(reply)) => {
                if self.input.len() == 0 {
                    self.proto = Some(ServerProto::RecvBody(reply));
                    let done = ServeDone { more: false, failed: None };
                    assert(start.allows(ServeStep::Idle, room as int));
                    assert(ServerConnection::serve_view(*self, requests@, done) =~= start.next(
                        ServeStep::Idle,
                        limit,
                    ));
                    return done;
                }
                let outcome = RequestBodyOutcome::consult(reply, &self.input, room);
                let ghost step = outcome.step();
                assert(self@.at(ServerStage::RecvBody) =~= start.connection);
                let done = self.request_body_came(outcome, requests, limit);
                assert(start.allows(step, room as int));
                assert(ServerConnection::serve_view(*self, requests@, done) == start.next(step, limit));
                done
            },
            Some(other) => {
                self.proto = Some(other);
                let done = ServeDone { more: false, failed: None };
                assert(start.allows(ServeStep::Idle, room as int));
                assert(ServerConnection::serve_view(*self, requests@, done) =~= start.next(
                    ServeStep::Idle,
                    limit,
                ));
                done
            },
        }
    }

    /// Reads what came in as far as it goes, and collects the requests.
    pub fn process(&mut self, limit: usize, room: usize, requests: &mut Vec<ServerRequest>) -> (
    done: ServeDone)
        requires
            old(requests)@.len() == 0,
        ensures
            exists|steps: Seq<ServeStep>|
                {
                    &&& ServeView::start(old(self)@).admits(steps, limit, room as int)
                    &&& ServeView::start(old(self)@).ends(steps, limit)
                    &&& ServerConnection::serve_view(*final(self), final(requests)@, done)
                        == #[trigger] ServeView::start(old(self)@).run(steps, limit)
                    &&& (
                        ServerConnection::serve_view(*final(self), final(requests)@, done),
                        final(self).proto,
                    ) == served(
                        ServeView::start(old(self)@),
                        old(self).proto,
                        limit,
                        room as int,
                        steps.len(),
                    )
                },
    {
        let ghost start = ServeView::start(self@);
        let ghost proto = self.proto;
        let ghost mut steps: Seq<ServeStep> = Seq::empty();
        let mut done = ServeDone { more: true, failed: None };
        let mut turns: u64 = u64::MAX;
        assert(requests_view(requests@) =~= Seq::empty());
        assert(ServerConnection::serve_view(*self, requests@, done) =~= start);
        while done.more && turns > 0
            invariant
                steps.len() + turns == u64::MAX,
                start.admits(steps, limit, room as int),
                done.more ==> done.failed is None,
                ServerConnection::serve_view(*self, requests@, done) == start.run(steps, limit),
                (ServerConnection::serve_view(*self, requests@, done), self.proto) == served(
                    start,
                    proto,
                    limit,
                    room as int,
                    steps.len(),
                ),
            decreases turns,
        {
            let ghost before = ServerConnection::serve_view(*self, requests@, done);
            assert(before =~= ServeView::resumed(self@, requests_view(requests@)));
            let ghost step = serve_step(self.proto, self@.input, room as int);
            done = self.process_step(limit, room, requests);
            turns -= 1;
            proof {
                let longer = steps.push(step);
                assert(longer.drop_last() =~= steps);
                steps = longer;
            }
        }
        assert(start.ends(steps, limit));
        done
    }
}

} // verus!
