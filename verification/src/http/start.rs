//! How an exchange is started, or waits for a connection.

use crate::http::body::BodySpec;
use crate::http::call::{begin, new_call, Draft, Proto};
#[allow(unused_imports)]
use crate::http::call::{begun, call_for, request_fault, RequestView, Stage};
use crate::http::client::{
    next_number, HttpClientService, QueuedStart, StartRequest, Started,
};
#[allow(unused_imports)]
use crate::http::client::{
    following, without_token, ClientView, QueuedStartView, StartRequestView,
};
use crate::http::effect::{Answer, ClientOutput, Effect};
#[allow(unused_imports)]
use crate::http::effect::{reply, AnswerView, EffectView};
use crate::http::error::HttpError;
#[allow(unused_imports)]
use crate::http::error::HttpErrorView;
use crate::http::exchange::Exchange;
#[allow(unused_imports)]
use crate::http::exchange::ExchangeView;
use crate::http::headers::apply_body_headers;
#[allow(unused_imports)]
use crate::http::headers::{framing_fault, framing_header, header_values, roomy};
#[allow(unused_imports)]
use crate::http::incoming::{calls, calls_kept};
use crate::http::origin::Origin;
#[allow(unused_imports)]
use crate::http::origin::{origin_of, OriginView};
#[allow(unused_imports)]
use crate::http::pool::{first_to, once_less, without_line};
use crate::http::pool::{find_line, remove_line, remove_origin, Line};
use crate::http::request::write_out;
#[allow(unused_imports)]
use crate::http::request::{head_fits, head_for, head_view, head_written_out, written_out};
use crate::http::transport::TransportId;
use crate::net::socket::Pending;
use std::collections::VecDeque;
use ureq_proto::client::state::Prepare;
#[allow(unused_imports)]
use ureq_proto::client::Call;
use vstd::prelude::*;

verus! {

broadcast use vstd::std_specs::hash::group_hash_axioms;

/// A request that only lacks a connection.
pub struct Prepared {
    pub token: u64,
    pub pending: Pending,
    pub origin: Origin,
    pub call: Draft<Prepare>,
    pub spec: BodySpec,
}

/// What a [`Prepared`] request says.
#[verifier::ext_equal]
pub struct PreparedView {
    pub token: u64,
    pub pending: Pending,
    pub origin: OriginView,
    pub spec: BodySpec,
    /// The request, where nothing of it is written yet.
    pub of: Option<RequestView>,
}

impl View for Prepared {
    type V = PreparedView;

    open spec fn view(&self) -> PreparedView {
        PreparedView {
            token: self.token,
            pending: self.pending,
            origin: self.origin@,
            spec: self.spec,
            of: if self.call.written().len() == 0 {
                self.call.of()
            } else {
                None
            },
        }
    }
}

/// The head of a request that is to be sent, and who waits for the exchange's number.
pub struct Opening {
    pub id: u64,
    pub pending: Pending,
    pub transport: TransportId,
    pub data: Vec<u8>,
}

/// What an [`Opening`] says.
#[verifier::ext_equal]
pub struct OpeningView {
    pub id: u64,
    pub pending: Pending,
    pub transport: TransportId,
    pub data: Seq<u8>,
}

impl View for Opening {
    type V = OpeningView;

    open spec fn view(&self) -> OpeningView {
        OpeningView {
            id: self.id,
            pending: self.pending,
            transport: self.transport,
            data: self.data@,
        }
    }
}

/// How a start goes on.
pub enum StartNext {
    /// It does not, for now or at all.
    Done,
    /// A connection is to be made.
    Connect(Prepared),
    /// The head of the request is to be sent.
    Send(Opening),
}

/// What a [`StartNext`] says.
#[verifier::ext_equal]
pub enum StartNextView {
    Done,
    Connect(PreparedView),
    Send(OpeningView),
}

impl View for StartNext {
    type V = StartNextView;

    open spec fn view(&self) -> StartNextView {
        match *self {
            StartNext::Done => StartNextView::Done,
            StartNext::Connect(prepared) => StartNextView::Connect(prepared@),
            StartNext::Send(opening) => StartNextView::Send(opening@),
        }
    }
}

/// The client, what is to be done, and how the start goes on.
#[verifier::ext_equal]
pub struct StartView {
    pub client: ClientView,
    pub effects: Seq<EffectView>,
    pub next: StartNextView,
}

impl StartView {
    /// The start is refused, and another one may go on.
    pub open spec fn refused(
        client: ClientView,
        effects: Seq<EffectView>,
        pending: Pending,
        error: HttpErrorView,
    ) -> StartView {
        StartView {
            client,
            effects: reply(effects, pending, AnswerView::Failed(error)).push(EffectView::Wake),
            next: StartNextView::Done,
        }
    }
}

impl ExchangeView {
    /// An exchange whose head is about to be sent.
    pub open spec fn fresh(
        transport: TransportId,
        origin: OriginView,
        stage: Stage,
        spec: BodySpec,
    ) -> ExchangeView {
        ExchangeView {
            transport,
            origin,
            proto: Some(stage),
            input: Seq::empty(),
            response: None,
            response_taken: false,
            response_waiter: None,
            write_waiter: None,
            chunks: Seq::empty(),
            body_waiter: None,
            body_ended: false,
            error: None,
            paused: false,
            request_finished: spec is Empty,
            request_expected: spec.size(),
            request_written: 0,
            reusable: None,
        }
    }
}

/// What a head that may have failed says.
pub type HeadView = Result<(Seq<u8>, Stage), HttpErrorView>;

impl ClientView {
    /// The client with the longest idle connection to an origin taken for use.
    pub open spec fn idle_taken(self, origin: OriginView) -> ClientView {
        let place = first_to(self.idle, origin);
        ClientView {
            idle: self.idle.remove(place),
            generations: self.generations.remove(self.idle[place].0.number()),
            ..self
        }
    }

    /// The client with one more exchange.
    pub open spec fn registered(
        self,
        prepared: PreparedView,
        transport: TransportId,
        stage: Stage,
    ) -> ClientView {
        let id = following(self.next_id);
        ClientView {
            next_id: id,
            active: self.active.insert(transport.number(), id),
            started: without_token(self.started, prepared.token).push(
                Started { token: prepared.token, exchange: id },
            ),
            exchanges: self.exchanges.insert(
                id,
                ExchangeView::fresh(transport, prepared.origin, stage, prepared.spec),
            ),
            ..self
        }
    }

    /// How a start goes on when it has a connection and the head of its request was written, or
    /// could not be.
    pub open spec fn begun(
        self,
        prepared: PreparedView,
        transport: TransportId,
        head: HeadView,
        effects: Seq<EffectView>,
    ) -> StartView {
        match head {
            Err(error) => StartView::refused(
                self.forgot(transport),
                effects.push(EffectView::Shutdown(transport)),
                prepared.pending,
                error,
            ),
            Ok((data, stage)) => StartView {
                client: self.registered(prepared, transport, stage),
                effects,
                next: StartNextView::Send(
                    OpeningView {
                        id: following(self.next_id),
                        pending: prepared.pending,
                        transport,
                        data,
                    },
                ),
            },
        }
    }

    /// How a start goes on when it has a connection; `alive` says whether anybody still waits.
    pub open spec fn engaged(
        self,
        prepared: PreparedView,
        transport: TransportId,
        alive: bool,
        head: HeadView,
        effects: Seq<EffectView>,
    ) -> StartView {
        if !alive {
            StartView {
                client: self.forgot(transport),
                effects: effects.push(EffectView::Shutdown(transport)).push(EffectView::Wake),
                next: StartNextView::Done,
            }
        } else {
            self.begun(prepared, transport, head, effects)
        }
    }

    /// Whether a start is turned away, or put off, before its request is looked at.
    pub open spec fn stopped(
        self,
        token: u64,
        alive: bool,
        pending: Pending,
        request: StartRequestView,
        effects: Seq<EffectView>,
    ) -> Option<StartView> {
        if !alive {
            Some(
                StartView {
                    client: self,
                    effects: effects.push(EffectView::Wake),
                    next: StartNextView::Done,
                },
            )
        } else {
            match origin_of(request.uri) {
                Err(error) => Some(StartView::refused(self, effects, pending, error)),
                Ok(origin) => if !self.can_start(origin) {
                    Some(
                        StartView {
                            client: ClientView {
                                waiting: self.waiting.push(
                                    QueuedStartView { token, pending, request },
                                ),
                                ..self
                            },
                            effects,
                            next: StartNextView::Done,
                        },
                    )
                } else {
                    None
                },
            }
        }
    }

    /// How a start goes on: `refusal` is what speaks against the request itself, `of` is the
    /// request as the protocol is given it, and `head` what came of writing its head on a
    /// connection that was idle.
    pub open spec fn starting(
        self,
        token: u64,
        alive: bool,
        pending: Pending,
        request: StartRequestView,
        effects: Seq<EffectView>,
        refusal: Option<HttpErrorView>,
        of: Option<RequestView>,
        head: HeadView,
    ) -> StartView {
        match self.stopped(token, alive, pending, request, effects) {
            Some(view) => view,
            None => match refusal {
                Some(error) => StartView::refused(self, effects, pending, error),
                None => {
                    let origin = origin_of(request.uri)->Ok_0;
                    let prepared = PreparedView { token, pending, origin, spec: request.spec, of };
                    if self.has_idle(origin) {
                        self.idle_taken(origin).engaged(
                            prepared,
                            self.idle[first_to(self.idle, origin)].0,
                            alive,
                            head,
                            effects,
                        )
                    } else {
                        StartView {
                            client: ClientView {
                                connecting: self.connecting.push(origin),
                                ..self
                            },
                            effects,
                            next: StartNextView::Connect(prepared),
                        }
                    }
                },
            },
        }
    }

    /// How a start goes on when the connection for it was made, or could not be.
    pub open spec fn connecting_done(
        self,
        prepared: PreparedView,
        connected: Result<TransportId, HttpErrorView>,
        alive: bool,
        head: HeadView,
        effects: Seq<EffectView>,
    ) -> StartView {
        let client = ClientView {
            connecting: once_less(self.connecting, prepared.origin),
            ..self
        };
        match connected {
            Err(error) => StartView::refused(client, effects, prepared.pending, error),
            Ok(transport) => (ClientView {
                lines: without_line(client.lines, transport).push((transport, prepared.origin)),
                ..client
            }).engaged(prepared, transport, alive, head, effects),
        }
    }

    /// The client when the head of a request was sent, or could not be.
    pub open spec fn opened(self, id: u64, sent: Option<HttpErrorView>, alive: bool) -> ClientView {
        if sent is Some || !alive {
            self.canceled(id)
        } else {
            self
        }
    }

    /// What that leaves to be done.
    pub open spec fn opening(
        self,
        id: u64,
        pending: Pending,
        sent: Option<HttpErrorView>,
        alive: bool,
        effects: Seq<EffectView>,
    ) -> Seq<EffectView> {
        if sent is Some {
            reply(self.canceling(id, effects), pending, AnswerView::Failed(sent->0))
        } else if !alive {
            self.canceling(id, effects)
        } else {
            let effects = if self.exchanges.dom().contains(id) && self.exchanges[id].proto == Some(
                Stage::Await100,
            ) {
                effects.push(
                    EffectView::ContinueTimeout {
                        id,
                        after_ms: self.config.continue_timeout_ms,
                    },
                )
            } else {
                effects
            };
            reply(effects, pending, AnswerView::Id(id))
        }
    }
}

/// Takes the starts with a token off a list.
pub fn drop_token(started: &mut Vec<Started>, token: u64)
    ensures
        final(started)@ == without_token(old(started)@, token),
{
    let ghost holds = |s: Started| s.token != token;
    let mut kept: Vec<Started> = Vec::new();
    let mut i: usize = 0;
    assert(started@.take(0).filter(holds) =~= Seq::empty());
    while i < started.len()
        invariant
            i <= started@.len(),
            started@ == old(started)@,
            holds == |s: Started| s.token != token,
            kept@ == started@.take(i as int).filter(holds),
        decreases started@.len() - i,
    {
        let one = started[i];
        assert(started@.take(i + 1).drop_last() =~= started@.take(i as int));
        assert(started@.take(i + 1).last() == one);
        reveal(Seq::filter);
        if one.token != token {
            kept.push(one);
        }
        i += 1;
    }
    assert(started@.take(i as int) =~= started@);
    *started = kept;
}

/// An error of the protocol, where there is one.
pub open spec fn protocol_error(text: Option<Seq<char>>) -> Option<HttpErrorView> {
    match text {
        Some(text) => Some(HttpErrorView::Protocol(text)),
        None => None,
    }
}

/// What speaks against a request: the headers that say how long its body is, or else method and
/// address; or there is no room for the header that has to be added.
pub open spec fn refusal_ok(request: StartRequestView, refusal: Option<HttpErrorView>) -> bool {
    match framing_fault(request.headers, request.spec) {
        Some(text) => refusal == protocol_error(Some(text)),
        None => {
            ||| refusal == protocol_error(request_fault(request.method, request.uri))
            ||| framing_header(request.headers, request.spec) is Some && !roomy(request.headers)
                && refusal == protocol_error(Some("header 数量超过上限"@))
        },
    }
}

/// A request as the protocol is given it: with the header added that says how long the body is,
/// where that has to be.
pub open spec fn framed(request: StartRequestView, of: RequestView) -> bool {
    &&& of.method == request.method
    &&& of.uri == request.uri
    &&& match framing_header(request.headers, request.spec) {
        None => of.headers == request.headers,
        Some((name, value)) => header_values(of.headers) == header_values(request.headers).insert(
            name,
            seq![value],
        ),
    }
}

/// What a call that may have been refused says.
pub open spec fn refusal_of(call: Result<Draft<Prepare>, HttpError>) -> Option<HttpErrorView> {
    match call {
        Ok(_) => None,
        Err(error) => Some(error@),
    }
}

/// The request of a call that was not refused.
pub open spec fn drafted(call: Result<Draft<Prepare>, HttpError>) -> Option<RequestView> {
    match call {
        Ok(draft) => draft.of(),
        Err(_) => None,
    }
}

/// Turns a request into a call.
pub fn prepare(request: StartRequest) -> (call: Result<Draft<Prepare>, HttpError>)
    ensures
        refusal_ok(request@, refusal_of(call)),
        call matches Ok(draft) ==> {
            &&& draft.written().len() == 0
            &&& draft.of() matches Some(of) && framed(request@, of) && draft.call() == call_for(
                of.method,
                of.uri,
                of.headers,
            )
        },
{
    let StartRequest { method, uri, headers, spec } = request;
    let mut headers = headers;
    match apply_body_headers(&mut headers, spec) {
        Err(error) => Err(error),
        Ok(()) => match new_call(method.as_str(), uri.as_str(), headers) {
            Ok(call) => Ok(call),
            Err(reason) => Err(HttpError::Protocol(reason)),
        },
    }
}

/// A start that was not stopped.
pub struct Admitted {
    pub origin: Origin,
    pub request: StartRequest,
}

/// A start that goes on with sending a head has an exchange with the call that wrote it. Every
/// other exchange has the call that it had.
pub open spec fn sends_with(
    before: HttpClientService,
    after: HttpClientService,
    next: StartNext,
    call: Call<Prepare>,
    limit: usize,
) -> bool {
    match next {
        StartNext::Send(opening) => written_out(begun(call), limit) matches Ok((head, proto))
            && calls(after) == calls(before).insert(opening.id, Some(proto)),
        _ => calls(after) == calls(before),
    }
}

/// A start goes on with the call that its request gives.
pub open spec fn goes_on_with(
    before: HttpClientService,
    after: HttpClientService,
    next: StartNext,
    of: Option<RequestView>,
    limit: usize,
) -> bool {
    match next {
        StartNext::Send(opening) => of matches Some(of) && sends_with(
            before,
            after,
            next,
            call_for(of.method, of.uri, of.headers),
            limit,
        ) && head_fits(head_for(of, limit), Some(of)),
        StartNext::Connect(prepared) => {
            &&& of matches Some(of) && prepared.call.call() == call_for(
                of.method,
                of.uri,
                of.headers,
            )
            &&& calls(after) == calls(before)
        },
        StartNext::Done => calls(after) == calls(before),
    }
}

/// What a start that has a connection comes to: the head is what its call writes.
pub open spec fn engaged_exactly(
    before: HttpClientService,
    prepared: Prepared,
    transport: TransportId,
    alive: bool,
    effects: Seq<EffectView>,
    after: HttpClientService,
    output: ClientOutput,
    next: StartNext,
) -> bool {
    let limit = before.config.max_header_size;
    let head = head_written_out(begun(prepared.call.call()), limit);
    &&& HttpClientService::start_view(after, output, next) == before@.engaged(
        prepared@,
        transport,
        alive,
        head,
        effects,
    )
    &&& next is Send ==> head_fits(head, prepared@.of)
    &&& sends_with(before, after, next, prepared.call.call(), limit)
}

impl HttpClientService {
    /// The client, what is to be done, and how a start goes on.
    pub open spec fn start_view(
        client: HttpClientService,
        output: ClientOutput,
        next: StartNext,
    ) -> StartView {
        StartView { client: client@, effects: output@, next: next@ }
    }

    /// Turns a start away or puts it off, where that is to be done before its request is looked
    /// at.
    pub fn screen(
        &mut self,
        token: u64,
        alive: bool,
        pending: Pending,
        request: StartRequest,
        output: &mut ClientOutput,
    ) -> (admitted: Option<Admitted>)
        ensures
            match old(self)@.stopped(token, alive, pending, request@, old(output)@) {
                Some(view) => {
                    &&& admitted is None
                    &&& final(self)@ == view.client
                    &&& final(output)@ == view.effects
                },
                None => {
                    &&& admitted matches Some(admitted)
                    &&& admitted.request == request
                    &&& origin_of(request@.uri) == Ok::<OriginView, HttpErrorView>(
                        admitted.origin@,
                    )
                    &&& final(self)@ == old(self)@
                    &&& final(output)@ == old(output)@
                },
            },
            final(self).exchanges@ == old(self).exchanges@,
    {
        if !alive {
            output.push(Effect::Wake);
            return None;
        }
        let origin = match Origin::from_uri(request.uri.as_str()) {
            Ok(origin) => origin,
            Err(error) => {
                output.reply(pending, Answer::Failed(error));
                output.push(Effect::Wake);
                return None;
            },
        };
        if !self.can_start(&origin) {
            self.waiting.push(QueuedStart { token, pending, request });
            assert(self@ =~= (ClientView {
                waiting: old(self)@.waiting.push(
                    QueuedStartView { token, pending, request: request@ },
                ),
                ..old(self)@
            }));
            return None;
        }
        Some(Admitted { origin, request })
    }

    /// Takes the longest idle connection to an origin for use.
    pub fn take_idle(&mut self, origin: &Origin) -> (transport: Option<TransportId>)
        ensures
            match transport {
                Some(transport) => {
                    &&& old(self)@.has_idle(origin@)
                    &&& transport == old(self)@.idle[first_to(old(self)@.idle, origin@)].0
                    &&& final(self)@ == old(self)@.idle_taken(origin@)
                },
                None => !old(self)@.has_idle(origin@) && final(self)@ == old(self)@,
            },
            final(self).exchanges@ == old(self).exchanges@,
    {
        let place: usize = find_line(&self.idle, origin);
        if place < self.idle.len() {
            let line = self.idle.remove(place);
            let key: u128 = line.transport.key();
            let _ = self.generations.remove(&key);
            assert(self@ =~= old(self)@.idle_taken(origin@));
            Some(line.transport)
        } else {
            None
        }
    }

    /// Goes on with a start that has a connection, when the head of its request was written or
    /// could not be.
    pub fn begin_with(
        &mut self,
        token: u64,
        pending: Pending,
        origin: Origin,
        spec: BodySpec,
        transport: TransportId,
        head: Result<(Vec<u8>, Proto), HttpError>,
        output: &mut ClientOutput,
    ) -> (next: StartNext)
        ensures
            forall|of: Option<RequestView>|
                HttpClientService::start_view(*final(self), *final(output), next) == #[trigger] old(
                    self)@.begun(
                    PreparedView { token, pending, origin: origin@, spec, of },
                    transport,
                    head_view(head),
                    old(output)@,
                ),
            next is Send <==> head is Ok,
            !(next is Connect),
            match next {
                StartNext::Send(opening) => calls(*final(self)) == calls(*old(self)).insert(
                    opening.id,
                    Some(head->Ok_0.1),
                ),
                _ => calls(*final(self)) == calls(*old(self)),
            },
    {
        let ghost before = self@;
        let ghost of: Option<RequestView> = None;
        let ghost prepared = PreparedView { token, pending, origin: origin@, spec, of };
        match head {
            Err(error) => {
                output.push(Effect::Shutdown(transport));
                self.forget_transport(transport);
                output.reply(pending, Answer::Failed(error));
                output.push(Effect::Wake);
                StartNext::Done
            },
            Ok((data, proto)) => {
                let ghost stage = proto@;
                let ghost left = proto;
                let id: u64 = next_number(self.next_id);
                self.next_id = id;
                let _ = self.active.insert(transport.key(), id);
                drop_token(&mut self.started, token);
                self.started.push(Started { token, exchange: id });
                let request_finished = match spec {
                    BodySpec::Empty => true,
                    _ => false,
                };
                let exchange = Exchange {
                    transport,
                    origin,
                    proto: Some(proto),
                    input: Vec::new(),
                    response: None,
                    response_taken: false,
                    response_waiter: None,
                    write_waiter: None,
                    chunks: VecDeque::new(),
                    body_waiter: None,
                    body_ended: false,
                    error: None,
                    paused: false,
                    request_finished,
                    request_expected: spec.expected(),
                    request_written: 0,
                    reusable: None,
                };
                assert(exchange@ =~= ExchangeView::fresh(transport, prepared.origin, stage, spec));
                let _ = self.exchanges.insert(id, exchange);
                assert(self@ =~= before.registered(prepared, transport, stage));
                assert(calls(*self) =~= calls(*old(self)).insert(id, Some(left)));
                StartNext::Send(Opening { id, pending, transport, data })
            },
        }
    }

    /// Goes on with a start that has a connection.
    pub fn engage(
        &mut self,
        prepared: Prepared,
        transport: TransportId,
        alive: bool,
        output: &mut ClientOutput,
    ) -> (next: StartNext)
        ensures
            engaged_exactly(
                *old(self),
                prepared,
                transport,
                alive,
                old(output)@,
                *final(self),
                *final(output),
                next,
            ),
    {
        let ghost before = self@;
        let ghost view = prepared@;
        let ghost effects = output@;
        let limit: usize = self.config.max_header_size;
        if !alive {
            output.push(Effect::Shutdown(transport));
            self.forget_transport(transport);
            output.push(Effect::Wake);
            let next = StartNext::Done;
            return next;
        }
        let Prepared { token, pending, origin, call, spec } = prepared;
        let head = write_out(begin(call), limit);
        assert(head_view(head) == head_written_out(begun(prepared.call.call()), limit));
        let next = self.begin_with(token, pending, origin, spec, transport, head, output);
        assert(HttpClientService::start_view(*self, *output, next) == before.begun(
            view,
            transport,
            head_view(head),
            effects,
        ));
        next
    }

    /// Starts an exchange; `alive` says whether anybody still waits for it.
    pub fn start_exchange(
        &mut self,
        token: u64,
        alive: bool,
        pending: Pending,
        request: StartRequest,
        output: &mut ClientOutput,
    ) -> (next: StartNext)
        ensures
            exists|
                refusal: Option<HttpErrorView>,
                of: Option<RequestView>,
                head: Result<(Seq<u8>, Stage), HttpErrorView>,
            |
                {
                    &&& refusal_ok(request@, refusal)
                    &&& old(self)@.stopped(token, alive, pending, request@, old(output)@) is None
                        && refusal is None ==> (of matches Some(of) && framed(request@, of))
                    &&& of matches Some(of) ==> head == head_for(
                        of,
                        old(self)@.config.max_header_size,
                    )
                    &&& HttpClientService::start_view(*final(self), *final(output), next)
                        == #[trigger] old(self)@.starting(
                        token,
                        alive,
                        pending,
                        request@,
                        old(output)@,
                        refusal,
                        of,
                        head,
                    )
                    &&& goes_on_with(
                        *old(self),
                        *final(self),
                        next,
                        of,
                        old(self)@.config.max_header_size,
                    )
                },
    {
        let ghost before = self@;
        let ghost asked = request@;
        let ghost effects = output@;
        let ghost limit = self.config.max_header_size;
        let ghost nothing: Result<(Seq<u8>, Stage), HttpErrorView> = Err(
            HttpErrorView::Canceled,
        );
        let spec = request.spec;
        match self.screen(token, alive, pending, request, output) {
            None => {
                let next = StartNext::Done;
                let ghost refusal: Option<HttpErrorView> = match framing_fault(
                    asked.headers,
                    asked.spec,
                ) {
                    Some(text) => protocol_error(Some(text)),
                    None => protocol_error(request_fault(asked.method, asked.uri)),
                };
                let ghost of: Option<RequestView> = None;
                assert(refusal_ok(asked, refusal));
                assert(HttpClientService::start_view(*self, *output, next) == before.starting(
                    token,
                    alive,
                    pending,
                    asked,
                    effects,
                    refusal,
                    of,
                    nothing,
                ));
                next
            },
            Some(admitted) => {
                let Admitted { origin, request } = admitted;
                let call = prepare(request);
                let ghost refusal = refusal_of(call);
                let ghost of = drafted(call);
                assert(refusal_ok(asked, refusal));
                match call {
                    Err(error) => {
                        output.reply(pending, Answer::Failed(error));
                        output.push(Effect::Wake);
                        let next = StartNext::Done;
                        assert(HttpClientService::start_view(*self, *output, next)
                            == before.starting(
                            token,
                            alive,
                            pending,
                            asked,
                            effects,
                            refusal,
                            of,
                            nothing,
                        ));
                        next
                    },
                    Ok(call) => {
                        let ghost head = head_for(of->0, limit);
                        match self.take_idle(&origin) {
                            Some(transport) => {
                                let prepared = Prepared { token, pending, origin, call, spec };
                                let ghost taken = self@;
                                let ghost view = prepared@;
                                let next = self.engage(prepared, transport, alive, output);
                                assert(HttpClientService::start_view(*self, *output, next)
                                    == before.starting(
                                    token,
                                    alive,
                                    pending,
                                    asked,
                                    effects,
                                    refusal,
                                    of,
                                    head,
                                ));
                                assert(goes_on_with(*old(self), *self, next, of, limit));
                                next
                            },
                            None => {
                                self.connecting.push(origin.copy());
                                let next = StartNext::Connect(
                                    Prepared { token, pending, origin, call, spec },
                                );
                                assert(self@ =~= (ClientView {
                                    connecting: before.connecting.push(origin@),
                                    ..before
                                }));
                                assert(HttpClientService::start_view(*self, *output, next)
                                    == before.starting(
                                    token,
                                    alive,
                                    pending,
                                    asked,
                                    effects,
                                    refusal,
                                    of,
                                    head,
                                ));
                                next
                            },
                        }
                    },
                }
            },
        }
    }

    /// Goes on with a start when the connection for it was made, or could not be.
    pub fn connected(
        &mut self,
        prepared: Prepared,
        connected: Result<TransportId, HttpError>,
        alive: bool,
        output: &mut ClientOutput,
    ) -> (next: StartNext)
        ensures
            ({
                let head = head_written_out(
                    begun(prepared.call.call()),
                    old(self)@.config.max_header_size,
                );
                &&& HttpClientService::start_view(*final(self), *final(output), next) == old(
                    self)@.connecting_done(
                    prepared@,
                    connected_view(connected),
                    alive,
                    head,
                    old(output)@,
                )
                &&& next is Send ==> head_fits(head, prepared@.of)
                &&& sends_with(
                    *old(self),
                    *final(self),
                    next,
                    prepared.call.call(),
                    old(self)@.config.max_header_size,
                )
            }),
    {
        let ghost before = self@;
        let ghost view = prepared@;
        let ghost effects = output@;
        let ghost limit = self.config.max_header_size;
        let ghost result = connected_view(connected);
        let ghost head = head_written_out(begun(prepared.call.call()), limit);
        remove_origin(&mut self.connecting, &prepared.origin);
        match connected {
            Err(error) => {
                output.reply(prepared.pending, Answer::Failed(error));
                output.push(Effect::Wake);
                let next = StartNext::Done;
                assert(HttpClientService::start_view(*self, *output, next)
                    =~= before.connecting_done(view, result, alive, head, effects));
                next
            },
            Ok(transport) => {
                remove_line(&mut self.lines, transport);
                self.lines.push(Line { transport, origin: prepared.origin.copy() });
                let ghost open = self@;
                assert(open =~= ClientView {
                    connecting: once_less(before.connecting, view.origin),
                    lines: without_line(before.lines, transport).push((transport, view.origin)),
                    ..before
                });
                let next = self.engage(prepared, transport, alive, output);
                assert(HttpClientService::start_view(*self, *output, next)
                    == before.connecting_done(view, result, alive, head, effects));
                next
            },
        }
    }

    /// The head of a request was sent, or could not be.
    pub fn opened(
        &mut self,
        id: u64,
        pending: Pending,
        sent: Result<(), HttpError>,
        alive: bool,
        output: &mut ClientOutput,
    )
        ensures
            final(self)@ == old(self)@.opened(id, failed_with(sent), alive),
            final(output)@ == old(self)@.opening(
                id,
                pending,
                failed_with(sent),
                alive,
                old(output)@,
            ),
            calls_kept(*old(self), *final(self)),
    {
        match sent {
            Err(error) => {
                self.cancel(id, output);
                output.reply(pending, Answer::Failed(error));
            },
            Ok(()) => {
                if !alive {
                    self.cancel(id, output);
                    return;
                }
                let awaits = match self.exchanges.get(&id) {
                    Some(exchange) => match &exchange.proto {
                        Some(Proto::Await100(_)) => true,
                        _ => false,
                    },
                    None => false,
                };
                if awaits {
                    output.push(
                        Effect::ContinueTimeout { id, after_ms: self.config.continue_timeout_ms },
                    );
                }
                output.reply(pending, Answer::Id(id));
            },
        }
    }
}

/// What the result of making a connection says.
pub open spec fn connected_view(connected: Result<TransportId, HttpError>) -> Result<
    TransportId,
    HttpErrorView,
> {
    match connected {
        Ok(transport) => Ok(transport),
        Err(error) => Err(error@),
    }
}

/// The error of sending, where there was one.
pub open spec fn failed_with(sent: Result<(), HttpError>) -> Option<HttpErrorView> {
    match sent {
        Ok(()) => None,
        Err(error) => Some(error@),
    }
}

} // verus!
