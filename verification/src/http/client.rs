//! The shared client: exchanges, the connections they use, and the starts that wait for one.

use crate::http::body::BodySpec;
use crate::http::config::HttpClientConfig;
use crate::http::effect::{Answer, ClientOutput, Effect};
#[allow(unused_imports)]
use crate::http::effect::{reply, reply_to, AnswerView, EffectView};
use crate::http::error::HttpError;
#[allow(unused_imports)]
use crate::http::error::HttpErrorView;
use crate::http::exchange::Exchange;
#[allow(unused_imports)]
use crate::http::exchange::{waiting_for, ExchangeView};
use crate::http::origin::Origin;
#[allow(unused_imports)]
use crate::http::origin::OriginView;
use crate::http::pool::{count_lines, count_origin, find_line, remove_line, Line};
#[allow(unused_imports)]
use crate::http::pool::{first_to, lines_to, lines_view, listed, origins_view, without_line};
use crate::http::transport::TransportId;
use crate::net::socket::Pending;
use std::collections::HashMap;
use ureq_proto::http::HeaderMap;
use vstd::prelude::*;

verus! {

broadcast use vstd::std_specs::hash::group_hash_axioms;

/// The name of the service.
pub const NAME: &'static str = "http-client";

/// A request before it is sent.
pub struct StartRequest {
    pub method: String,
    pub uri: String,
    pub headers: HeaderMap,
    pub spec: BodySpec,
}

/// What a [`StartRequest`] says.
#[verifier::ext_equal]
pub struct StartRequestView {
    pub method: Seq<char>,
    pub uri: Seq<char>,
    pub headers: HeaderMap,
    pub spec: BodySpec,
}

impl View for StartRequest {
    type V = StartRequestView;

    open spec fn view(&self) -> StartRequestView {
        StartRequestView {
            method: self.method@,
            uri: self.uri@,
            headers: self.headers,
            spec: self.spec,
        }
    }
}

/// A start that waits for a connection.
pub struct QueuedStart {
    pub token: u64,
    pub pending: Pending,
    pub request: StartRequest,
}

/// What a [`QueuedStart`] says.
#[verifier::ext_equal]
pub struct QueuedStartView {
    pub token: u64,
    pub pending: Pending,
    pub request: StartRequestView,
}

impl View for QueuedStart {
    type V = QueuedStartView;

    open spec fn view(&self) -> QueuedStartView {
        QueuedStartView { token: self.token, pending: self.pending, request: self.request@ }
    }
}

/// The exchange that a start led to, until whoever started it knows.
#[derive(Debug, Clone, Copy, PartialEq, Eq, Structural)]
pub struct Started {
    pub token: u64,
    pub exchange: u64,
}

/// The client.
pub struct HttpClientService {
    pub next_id: u64,
    pub exchanges: HashMap<u64, Exchange>,
    /// The exchange that uses a connection, by the connection's number.
    pub active: HashMap<u128, u64>,
    /// Every connection.
    pub lines: Vec<Line>,
    /// The connections that no exchange uses, the longest idle first.
    pub idle: Vec<Line>,
    /// The starts that wait, the longest waiting first.
    pub waiting: Vec<QueuedStart>,
    pub started: Vec<Started>,
    /// Where connections are being made to, once for each.
    pub connecting: Vec<Origin>,
    /// The number of the idleness of a connection, by the connection's number.
    pub generations: HashMap<u128, u64>,
    pub next_generation: u64,
    pub config: HttpClientConfig,
}

/// What an [`HttpClientService`] holds.
#[verifier::ext_equal]
pub struct ClientView {
    pub next_id: u64,
    pub exchanges: Map<u64, ExchangeView>,
    pub active: Map<u128, u64>,
    pub lines: Seq<(TransportId, OriginView)>,
    pub idle: Seq<(TransportId, OriginView)>,
    pub waiting: Seq<QueuedStartView>,
    pub started: Seq<Started>,
    pub connecting: Seq<OriginView>,
    pub generations: Map<u128, u64>,
    pub next_generation: u64,
    pub config: HttpClientConfig,
}

impl View for HttpClientService {
    type V = ClientView;

    open spec fn view(&self) -> ClientView {
        ClientView {
            next_id: self.next_id,
            exchanges: self.exchanges@.map_values(|e: Exchange| e@),
            active: self.active@,
            lines: lines_view(self.lines@),
            idle: lines_view(self.idle@),
            waiting: self.waiting@.map_values(|q: QueuedStart| q@),
            started: self.started@,
            connecting: origins_view(self.connecting@),
            generations: self.generations@,
            next_generation: self.next_generation,
            config: self.config,
        }
    }
}

/// The number after another; zero is left out.
pub open spec fn following(number: u64) -> u64 {
    if number == u64::MAX {
        1
    } else {
        (number + 1) as u64
    }
}

/// The number after another; zero is left out.
pub fn next_number(number: u64) -> (next: u64)
    ensures
        next == following(number),
        next > 0,
{
    if number == u64::MAX {
        1
    } else {
        number + 1
    }
}

/// The starts but for those of an exchange.
pub open spec fn without_exchange(started: Seq<Started>, exchange: u64) -> Seq<Started> {
    started.filter(|s: Started| s.exchange != exchange)
}

/// The starts but for those with a token.
pub open spec fn without_token(started: Seq<Started>, token: u64) -> Seq<Started> {
    started.filter(|s: Started| s.token != token)
}

impl ClientView {
    /// A client that has done nothing yet.
    pub open spec fn empty(config: HttpClientConfig) -> ClientView {
        ClientView {
            next_id: 0,
            exchanges: Map::empty(),
            active: Map::empty(),
            lines: Seq::empty(),
            idle: Seq::empty(),
            waiting: Seq::empty(),
            started: Seq::empty(),
            connecting: Seq::empty(),
            generations: Map::empty(),
            next_generation: 0,
            config,
        }
    }

    /// The client with an exchange in another state.
    pub open spec fn with(self, id: u64, exchange: ExchangeView) -> ClientView {
        ClientView { exchanges: self.exchanges.insert(id, exchange), ..self }
    }

    /// The client without a connection.
    pub open spec fn forgot(self, transport: TransportId) -> ClientView {
        ClientView {
            lines: without_line(self.lines, transport),
            active: self.active.remove(transport.number()),
            generations: self.generations.remove(transport.number()),
            idle: without_line(self.idle, transport),
            ..self
        }
    }

    /// The client without an exchange: its connection is closed.
    pub open spec fn canceled(self, id: u64) -> ClientView {
        if self.exchanges.dom().contains(id) {
            ClientView {
                exchanges: self.exchanges.remove(id),
                started: without_exchange(self.started, id),
                ..self
            }.forgot(self.exchanges[id].transport)
        } else {
            self
        }
    }

    /// What giving an exchange up leaves to be done: its connection is closed, whoever waits is
    /// told, and a start that waits may go on.
    pub open spec fn canceling(self, id: u64, effects: Seq<EffectView>) -> Seq<EffectView> {
        if self.exchanges.dom().contains(id) {
            let x = self.exchanges[id];
            let failed = AnswerView::Failed(HttpErrorView::Canceled);
            let effects = effects.push(EffectView::Shutdown(x.transport));
            let effects = reply_to(effects, x.response_waiter, failed);
            let effects = reply_to(effects, x.body_waiter, failed);
            let effects = reply_to(effects, waiting_for(x.write_waiter), failed);
            effects.push(EffectView::Wake)
        } else {
            effects
        }
    }

    /// Whether there is an idle connection to an origin.
    pub open spec fn has_idle(self, origin: OriginView) -> bool {
        first_to(self.idle, origin) < self.idle.len()
    }

    /// Whether one more connection to an origin is allowed.
    pub open spec fn has_room(self, origin: OriginView) -> bool {
        &&& self.lines.len() + self.connecting.len() < self.config.max_connections
        &&& lines_to(self.lines, origin) + listed(self.connecting, origin)
            < self.config.max_connections_per_origin
    }

    /// Whether a start to an origin can go on.
    pub open spec fn can_start(self, origin: OriginView) -> bool {
        self.has_idle(origin) || self.has_room(origin)
    }

    /// Whether one more idle connection to an origin is kept.
    pub open spec fn keeps_idle(self, origin: OriginView) -> bool {
        &&& self.idle.len() < self.config.max_idle_connections
        &&& lines_to(self.idle, origin) < self.config.max_idle_connections_per_origin
    }

    /// The client when an exchange needs its connection no longer.
    pub open spec fn recycled(
        self,
        transport: TransportId,
        origin: OriginView,
        reusable: bool,
    ) -> ClientView {
        if reusable && self.keeps_idle(origin) {
            let generation = following(self.next_generation);
            ClientView {
                active: self.active.remove(transport.number()),
                idle: self.idle.push((transport, origin)),
                generations: self.generations.insert(transport.number(), generation),
                next_generation: generation,
                ..self
            }
        } else {
            self.forgot(transport)
        }
    }

    /// What that leaves to be done.
    pub open spec fn recycling(
        self,
        transport: TransportId,
        origin: OriginView,
        reusable: bool,
        effects: Seq<EffectView>,
    ) -> Seq<EffectView> {
        if reusable && self.keeps_idle(origin) {
            effects.push(
                EffectView::IdleTimeout {
                    transport,
                    generation: following(self.next_generation),
                    after_ms: self.config.pool_idle_timeout_ms,
                },
            ).push(EffectView::Wake)
        } else {
            effects.push(EffectView::Shutdown(transport)).push(EffectView::Wake)
        }
    }
}

/// Takes the starts of an exchange off a list.
fn drop_exchange(started: &mut Vec<Started>, exchange: u64)
    ensures
        final(started)@ == without_exchange(old(started)@, exchange),
{
    let ghost holds = |s: Started| s.exchange != exchange;
    let mut kept: Vec<Started> = Vec::new();
    let mut i: usize = 0;
    assert(started@.take(0).filter(holds) =~= Seq::empty());
    while i < started.len()
        invariant
            i <= started@.len(),
            started@ == old(started)@,
            holds == |s: Started| s.exchange != exchange,
            kept@ == started@.take(i as int).filter(holds),
        decreases started@.len() - i,
    {
        let one = started[i];
        assert(started@.take(i + 1).drop_last() =~= started@.take(i as int));
        assert(started@.take(i + 1).last() == one);
        reveal(Seq::filter);
        if one.exchange != exchange {
            kept.push(one);
        }
        i += 1;
    }
    assert(started@.take(i as int) =~= started@);
    *started = kept;
}

impl HttpClientService {
    /// A client that has done nothing yet.
    pub fn new(config: HttpClientConfig) -> (client: HttpClientService)
        ensures
            client@ == ClientView::empty(config),
    {
        let client = HttpClientService {
            next_id: 0,
            exchanges: HashMap::new(),
            active: HashMap::new(),
            lines: Vec::new(),
            idle: Vec::new(),
            waiting: Vec::new(),
            started: Vec::new(),
            connecting: Vec::new(),
            generations: HashMap::new(),
            next_generation: 0,
            config,
        };
        assert(client@ =~= ClientView::empty(config));
        client
    }

    /// Takes an exchange out, to work on it.
    pub(crate) fn take(&mut self, id: u64) -> (exchange: Option<Exchange>)
        ensures
            match exchange {
                Some(exchange) => {
                    &&& old(self)@.exchanges.dom().contains(id)
                    &&& exchange@ == old(self)@.exchanges[id]
                    &&& old(self).exchanges@.dom().contains(id)
                    &&& exchange == old(self).exchanges@[id]
                    &&& final(self)@ == (ClientView {
                        exchanges: old(self)@.exchanges.remove(id),
                        ..old(self)@
                    })
                },
                None => {
                    &&& !old(self)@.exchanges.dom().contains(id)
                    &&& final(self)@ == old(self)@
                },
            },
            final(self).exchanges@ == old(self).exchanges@.remove(id),
    {
        let exchange = self.exchanges.remove(&id);
        assert(self@ =~= (ClientView {
            exchanges: old(self)@.exchanges.remove(id),
            ..old(self)@
        }));
        if exchange.is_none() {
            assert(self@ =~= old(self)@);
        }
        exchange
    }

    /// Puts an exchange in.
    pub(crate) fn put(&mut self, id: u64, exchange: Exchange)
        ensures
            final(self)@ == old(self)@.with(id, exchange@),
            final(self).exchanges@ == old(self).exchanges@.insert(id, exchange),
    {
        let _ = self.exchanges.insert(id, exchange);
        assert(self@ =~= old(self)@.with(id, exchange@));
    }

    /// Forgets a connection.
    pub fn forget_transport(&mut self, transport: TransportId)
        ensures
            final(self)@ == old(self)@.forgot(transport),
            final(self).exchanges@ == old(self).exchanges@,
    {
        let key: u128 = transport.key();
        remove_line(&mut self.lines, transport);
        let _ = self.active.remove(&key);
        let _ = self.generations.remove(&key);
        remove_line(&mut self.idle, transport);
        assert(self@ =~= old(self)@.forgot(transport));
    }

    /// Gives an exchange up.
    pub fn cancel(&mut self, id: u64, output: &mut ClientOutput)
        ensures
            final(self)@ == old(self)@.canceled(id),
            final(self).exchanges@ == old(self).exchanges@.remove(id),
            final(output)@ == old(self)@.canceling(id, old(output)@),
    {
        let ghost before = self@;
        match self.take(id) {
            None => {},
            Some(exchange) => {
                drop_exchange(&mut self.started, id);
                output.push(Effect::Shutdown(exchange.transport));
                assert(self@ =~= (ClientView {
                    exchanges: before.exchanges.remove(id),
                    started: without_exchange(before.started, id),
                    ..before
                }));
                self.forget_transport(exchange.transport);
                output.reply_to(exchange.response_waiter, Answer::Failed(HttpError::Canceled));
                output.reply_to(exchange.body_waiter, Answer::Failed(HttpError::Canceled));
                if let Some(waiting) = exchange.write_waiter {
                    output.reply(waiting.pending, Answer::Failed(HttpError::Canceled));
                }
                output.push(Effect::Wake);
            },
        }
    }

    /// Whether a start to an origin can go on.
    pub fn can_start(&self, origin: &Origin) -> (can: bool)
        ensures
            can == self@.can_start(origin@),
    {
        if find_line(&self.idle, origin) < self.idle.len() {
            return true;
        }
        let total: u128 = self.lines.len() as u128 + self.connecting.len() as u128;
        let same: u128 = count_lines(&self.lines, origin) as u128 + count_origin(
            &self.connecting,
            origin,
        ) as u128;
        total < self.config.max_connections as u128 && same
            < self.config.max_connections_per_origin as u128
    }

    /// An exchange needs its connection no longer.
    pub fn recycle(
        &mut self,
        transport: TransportId,
        origin: &Origin,
        reusable: bool,
        output: &mut ClientOutput,
    )
        ensures
            final(self)@ == old(self)@.recycled(transport, origin@, reusable),
            final(output)@ == old(self)@.recycling(transport, origin@, reusable, old(output)@),
            final(self).exchanges@ == old(self).exchanges@,
    {
        let ghost before = self@;
        let key: u128 = transport.key();
        if !reusable || self.idle.len() >= self.config.max_idle_connections || count_lines(
            &self.idle,
            origin,
        ) >= self.config.max_idle_connections_per_origin {
            output.push(Effect::Shutdown(transport));
            self.forget_transport(transport);
        } else {
            let _ = self.active.remove(&key);
            self.idle.push(Line { transport, origin: origin.copy() });
            self.next_generation = next_number(self.next_generation);
            let _ = self.generations.insert(key, self.next_generation);
            output.push(
                Effect::IdleTimeout {
                    transport,
                    generation: self.next_generation,
                    after_ms: self.config.pool_idle_timeout_ms,
                },
            );
            assert(self@ =~= before.recycled(transport, origin@, reusable));
        }
        output.push(Effect::Wake);
    }
}

} // verus!
