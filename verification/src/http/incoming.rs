//! What the client does when bytes come in or a connection closes.

use crate::http::call::{until_close, Proto};
#[allow(unused_imports)]
use crate::http::call::{body_lasts, Stage};
use crate::http::client::HttpClientService;
#[allow(unused_imports)]
use crate::http::client::ClientView;
#[allow(unused_imports)]
use crate::http::config::HttpClientConfig;
use crate::http::effect::{ClientOutput, Effect};
#[allow(unused_imports)]
use crate::http::effect::EffectView;
use crate::http::exchange::{Exchange, QueuedChunk};
#[allow(unused_imports)]
use crate::http::exchange::{driven, queued, DriveView, ExchangeView, Step};
#[allow(unused_imports)]
use crate::http::serve::lemma_put_back;
use crate::http::transport::{TlsEvent, TransportId};
use crate::net::event::SocketEvent;
use crate::net::socket::Pending;
use vstd::prelude::*;

verus! {

broadcast use vstd::std_specs::hash::group_hash_axioms;

/// What reading leaves to be done: a chunk to send, and a connection to pause.
pub struct DriveNext {
    pub job: Option<QueuedChunk>,
    pub pause: Option<TransportId>,
}

/// The client after reading, what is to be done, the chunk to send and the connection to pause.
#[verifier::ext_equal]
pub struct ReadView {
    pub client: ClientView,
    pub effects: Seq<EffectView>,
    pub job: Option<(Pending, Seq<u8>)>,
    pub pause: Option<TransportId>,
}

/// The body that an exchange receives lasts until its connection closes.
pub open spec fn lasts(exchanges: Map<u64, Exchange>, id: u64) -> bool {
    &&& exchanges.dom().contains(id)
    &&& exchanges[id].proto matches Some(Proto::RecvBody(call)) && body_lasts(call)
}

impl ReadView {
    /// Nothing was read.
    pub open spec fn nothing(client: ClientView, effects: Seq<EffectView>) -> ReadView {
        ReadView { client, effects, job: None, pause: None }
    }
}

impl ClientView {
    /// The exchange that is about to be read.
    pub open spec fn reading(self, id: u64, effects: Seq<EffectView>) -> DriveView {
        DriveView::start(self.exchanges[id], effects)
    }

    /// Whether an exchange can be read in these steps.
    pub open spec fn readable(self, id: u64, effects: Seq<EffectView>, steps: Seq<Step>) -> bool {
        &&& self.reading(id, effects).admits(
            steps,
            id,
            self.config.max_header_size,
            self.config.max_chunk_size as int,
        )
        &&& self.reading(id, effects).ends(steps, id, self.config.max_header_size)
    }

    /// The client when an exchange was read in these steps.
    pub open spec fn driven(self, id: u64, effects: Seq<EffectView>, steps: Seq<Step>) -> ReadView {
        if !self.exchanges.dom().contains(id) {
            ReadView::nothing(self, effects)
        } else {
            let drive = self.reading(id, effects).run(steps, id, self.config.max_header_size);
            let high = self.config.input_high_water;
            ReadView {
                client: self.with(id, drive.exchange.settled(high)),
                effects: drive.exchange.settling(drive.effects),
                job: drive.job,
                pause: if drive.exchange.served().to_pause(high) {
                    Some(drive.exchange.transport)
                } else {
                    None
                },
            }
        }
    }

    /// The client with bytes that came in for an exchange.
    pub open spec fn fed(self, id: u64, data: Seq<u8>) -> ClientView {
        if self.exchanges.dom().contains(id) {
            self.with(
                id,
                ExchangeView {
                    input: self.exchanges[id].input + data,
                    ..self.exchanges[id]
                },
            )
        } else {
            self
        }
    }

    /// The client when bytes came in on a connection. On one that no exchange uses nothing may
    /// come: it is closed.
    pub open spec fn arrived(
        self,
        transport: TransportId,
        data: Seq<u8>,
        effects: Seq<EffectView>,
        steps: Seq<Step>,
    ) -> ReadView {
        if self.active.dom().contains(transport.number()) {
            let id = self.active[transport.number()];
            self.fed(id, data).driven(id, effects, steps)
        } else {
            ReadView::nothing(
                self.forgot(transport),
                effects.push(EffectView::Shutdown(transport)),
            )
        }
    }

    /// Whether the exchange of a connection can be read in these steps after bytes came in.
    pub open spec fn arrival_readable(
        self,
        transport: TransportId,
        data: Seq<u8>,
        effects: Seq<EffectView>,
        steps: Seq<Step>,
    ) -> bool {
        self.active.dom().contains(transport.number()) ==> {
            let id = self.active[transport.number()];
            self.exchanges.dom().contains(id) ==> self.fed(id, data).readable(id, effects, steps)
        }
    }

    /// Whether an exchange receives a body.
    pub open spec fn receives(self, id: u64) -> bool {
        self.exchanges.dom().contains(id) && self.exchanges[id].proto == Some(Stage::RecvBody)
    }

    /// The client with an exchange whose body ended with its connection.
    pub open spec fn closed_off(self, id: u64) -> ClientView {
        self.with(
            id,
            ExchangeView {
                body_ended: true,
                proto: Some(Stage::Done),
                reusable: Some(false),
                ..self.exchanges[id]
            },
        )
    }

    /// The client when a connection is gone. `until` says whether a body that was received was to
    /// last until the connection closes; it is then whole, unless the connection failed. Any other
    /// exchange is given up.
    pub open spec fn closed(
        self,
        transport: TransportId,
        failed: bool,
        until: bool,
        effects: Seq<EffectView>,
        steps: Seq<Step>,
    ) -> ReadView {
        let client = self.forgot(transport);
        if !self.active.dom().contains(transport.number()) {
            ReadView::nothing(client, effects.push(EffectView::Wake))
        } else {
            let id = self.active[transport.number()];
            if until && !failed {
                client.closed_off(id).driven(id, effects, steps)
            } else {
                ReadView::nothing(client.canceled(id), client.canceling(id, effects))
            }
        }
    }

    /// Whether what was received when a connection closed can be read in these steps, and only a
    /// body can have been meant to last until then.
    pub open spec fn close_readable(
        self,
        transport: TransportId,
        failed: bool,
        until: bool,
        effects: Seq<EffectView>,
        steps: Seq<Step>,
    ) -> bool {
        let client = self.forgot(transport);
        self.active.dom().contains(transport.number()) ==> {
            let id = self.active[transport.number()];
            &&& until ==> self.receives(id)
            &&& until && !failed ==> client.closed_off(id).readable(id, effects, steps)
        }
    }
}

/// The calls of the exchanges.
pub open spec fn calls(client: HttpClientService) -> Map<u64, Option<Proto>> {
    client.exchanges@.map_values(|exchange: Exchange| exchange.proto)
}

/// The call of an exchange.
pub open spec fn call_at(client: HttpClientService, id: u64) -> Option<Proto> {
    client.exchanges@[id].proto
}

/// Every exchange that is left has the call that it had.
pub open spec fn calls_kept(before: HttpClientService, after: HttpClientService) -> bool {
    calls(after).submap_of(calls(before))
}

/// An exchange is read in these steps as its call makes them, and that call is left.
pub open spec fn reads_so(
    x: ExchangeView,
    call: Option<Proto>,
    id: u64,
    config: HttpClientConfig,
    effects: Seq<EffectView>,
    steps: Seq<Step>,
    left: Option<Proto>,
) -> bool {
    let start = DriveView::start(x, effects);
    driven(
        start,
        call,
        id,
        config.max_header_size,
        config.max_chunk_size as int,
        steps.len(),
    ) == (start.run(steps, id, config.max_header_size), left)
}

/// The calls after an exchange `x` was read that has this call: its own has read on, and the
/// others are as they were. Without an exchange all are.
pub open spec fn calls_read(
    before: HttpClientService,
    x: ExchangeView,
    call: Option<Proto>,
    id: u64,
    effects: Seq<EffectView>,
    steps: Seq<Step>,
    after: HttpClientService,
) -> bool {
    if before.exchanges@.dom().contains(id) {
        &&& reads_so(x, call, id, before.config, effects, steps, call_at(after, id))
        &&& calls(after) == calls(before).insert(id, call_at(after, id))
    } else {
        calls(after) == calls(before)
    }
}

/// The calls after bytes came in on a connection.
pub open spec fn arrival_left(
    before: HttpClientService,
    transport: TransportId,
    data: Seq<u8>,
    effects: Seq<EffectView>,
    steps: Seq<Step>,
    after: HttpClientService,
) -> bool {
    if before@.active.dom().contains(transport.number()) {
        let id = before@.active[transport.number()];
        calls_read(
            before,
            before@.fed(id, data).exchanges[id],
            call_at(before, id),
            id,
            effects,
            steps,
            after,
        )
    } else {
        calls(after) == calls(before)
    }
}

/// The calls after a connection is gone.
pub open spec fn close_left(
    before: HttpClientService,
    transport: TransportId,
    failed: bool,
    until: bool,
    effects: Seq<EffectView>,
    steps: Seq<Step>,
    after: HttpClientService,
) -> bool {
    if before@.active.dom().contains(transport.number()) {
        let id = before@.active[transport.number()];
        if until && !failed {
            calls_read(
                before,
                before@.forgot(transport).closed_off(id).exchanges[id],
                Some(Proto::Done),
                id,
                effects,
                steps,
                after,
            )
        } else {
            calls(after) == calls(before).remove(id)
        }
    } else {
        calls(after) == calls(before)
    }
}

impl HttpClientService {
    /// The client after reading, what is to be done, the chunk to send and the connection to
    /// pause.
    pub open spec fn read_view(
        client: HttpClientService,
        output: ClientOutput,
        next: DriveNext,
    ) -> ReadView {
        ReadView {
            client: client@,
            effects: output@,
            job: queued(next.job),
            pause: next.pause,
        }
    }

    /// Reads what came in for an exchange.
    pub fn drive_input(&mut self, id: u64, output: &mut ClientOutput) -> (next: DriveNext)
        ensures
            exists|steps: Seq<Step>|
                {
                    &&& old(self)@.exchanges.dom().contains(id) ==> old(self)@.readable(
                        id,
                        old(output)@,
                        steps,
                    )
                    &&& HttpClientService::read_view(*final(self), *final(output), next)
                        == #[trigger] old(self)@.driven(id, old(output)@, steps)
                    &&& calls_read(
                        *old(self),
                        old(self)@.exchanges[id],
                        call_at(*old(self), id),
                        id,
                        old(output)@,
                        steps,
                        *final(self),
                    )
                },
            final(self).config == old(self).config,
    {
        let ghost before = self@;
        let ghost effects = output@;
        match self.take(id) {
            None => {
                let next = DriveNext { job: None, pause: None };
                assert(calls(*self) =~= calls(*old(self)));
                assert(HttpClientService::read_view(*self, *output, next) == before.driven(
                    id,
                    effects,
                    Seq::empty(),
                ));
                next
            },
            Some(exchange) => {
                let mut exchange = exchange;
                let ghost x = exchange@;
                let limit: usize = self.config.max_header_size;
                let room: usize = self.config.max_chunk_size;
                let ghost call = exchange.proto;
                let done = exchange.drive(id, limit, room, output);
                let ghost steps = choose|steps: Seq<Step>|
                    {
                        &&& DriveView::start(x, effects).admits(steps, id, limit, room as int)
                        &&& DriveView::start(x, effects).ends(steps, id, limit)
                        &&& Exchange::drive_view(exchange, *output, done)
                            == #[trigger] DriveView::start(x, effects).run(steps, id, limit)
                        &&& (Exchange::drive_view(exchange, *output, done), exchange.proto)
                            == driven(
                            DriveView::start(x, effects),
                            call,
                            id,
                            limit,
                            room as int,
                            steps.len(),
                        )
                    };
                let ghost left = exchange.proto;
                let transport = exchange.transport;
                let pause = exchange.settle(self.config.input_high_water, output);
                let ghost after = exchange@;
                self.put(id, exchange);
                proof {
                    lemma_put_back(before, id, after);
                    assert(calls(*self) =~= calls(*old(self)).insert(id, left));
                    assert(reads_so(x, call, id, self.config, effects, steps, left));
                }
                let next = DriveNext {
                    job: done.job,
                    pause: if pause {
                        Some(transport)
                    } else {
                        None
                    },
                };
                assert(before.readable(id, effects, steps));
                assert(HttpClientService::read_view(*self, *output, next) =~= before.driven(
                    id,
                    effects,
                    steps,
                ));
                next
            },
        }
    }

    /// Bytes came in on a connection.
    pub fn on_data(&mut self, transport: TransportId, data: Vec<u8>, output: &mut ClientOutput) -> (
    next: DriveNext)
        ensures
            exists|steps: Seq<Step>|
                {
                    &&& old(self)@.arrival_readable(transport, data@, old(output)@, steps)
                    &&& HttpClientService::read_view(*final(self), *final(output), next)
                        == #[trigger] old(self)@.arrived(transport, data@, old(output)@, steps)
                    &&& arrival_left(
                        *old(self),
                        transport,
                        data@,
                        old(output)@,
                        steps,
                        *final(self),
                    )
                },
    {
        let ghost before = self@;
        let ghost effects = output@;
        let key: u128 = transport.key();
        let user = match self.active.get(&key) {
            Some(id) => Some(*id),
            None => None,
        };
        match user {
            None => {
                output.push(Effect::Shutdown(transport));
                self.forget_transport(transport);
                let next = DriveNext { job: None, pause: None };
                assert(before.arrival_readable(transport, data@, effects, Seq::empty()));
                assert(HttpClientService::read_view(*self, *output, next) == before.arrived(
                    transport,
                    data@,
                    effects,
                    Seq::empty(),
                ));
                next
            },
            Some(id) => {
                match self.take(id) {
                    None => {},
                    Some(exchange) => {
                        let mut exchange = exchange;
                        let ghost x = exchange@;
                        exchange.input.extend_from_slice(data.as_slice());
                        assert(exchange@ =~= ExchangeView { input: x.input + data@, ..x });
                        let ghost after = exchange@;
                        self.put(id, exchange);
                        proof {
                            lemma_put_back(before, id, after);
                        }
                    },
                }
                assert(self@ == before.fed(id, data@));
                let ghost fed = self@;
                let ghost middle = *self;
                assert(calls(middle) =~= calls(*old(self)));
                let next = self.drive_input(id, output);
                proof {
                    let steps = choose|steps: Seq<Step>|
                        {
                            &&& fed.exchanges.dom().contains(id) ==> fed.readable(
                                id,
                                effects,
                                steps,
                            )
                            &&& HttpClientService::read_view(*self, *output, next)
                                == #[trigger] fed.driven(id, effects, steps)
                            &&& calls_read(
                                middle,
                                fed.exchanges[id],
                                call_at(middle, id),
                                id,
                                effects,
                                steps,
                                *self,
                            )
                        };
                    assert(arrival_left(*old(self), transport, data@, effects, steps, *self));
                    assert(before.arrival_readable(transport, data@, effects, steps));
                    assert(HttpClientService::read_view(*self, *output, next) == before.arrived(
                        transport,
                        data@,
                        effects,
                        steps,
                    ));
                }
                next
            },
        }
    }

    /// Whether the body that an exchange receives lasts until its connection closes.
    fn lasts_until_close(&self, id: u64) -> (until: bool)
        ensures
            until == lasts(self.exchanges@, id),
            until ==> self@.receives(id),
    {
        match self.exchanges.get(&id) {
            Some(exchange) => match &exchange.proto {
                Some(Proto::RecvBody(call)) => until_close(call),
                _ => false,
            },
            None => false,
        }
    }

    /// Goes on when a connection is gone; `until` says whether a body that was received was to
    /// last until then.
    pub fn went_away(
        &mut self,
        transport: TransportId,
        failed: bool,
        until: bool,
        output: &mut ClientOutput,
    ) -> (next: DriveNext)
        requires
            old(self)@.active.dom().contains(transport.number()) && until ==> old(self)@.receives(
                old(self)@.active[transport.number()],
            ),
        ensures
            exists|steps: Seq<Step>|
                {
                    &&& old(self)@.close_readable(transport, failed, until, old(output)@, steps)
                    &&& HttpClientService::read_view(*final(self), *final(output), next)
                        == #[trigger] old(self)@.closed(
                        transport,
                        failed,
                        until,
                        old(output)@,
                        steps,
                    )
                    &&& close_left(
                        *old(self),
                        transport,
                        failed,
                        until,
                        old(output)@,
                        steps,
                        *final(self),
                    )
                },
    {
        let ghost before = self@;
        let ghost effects = output@;
        let key: u128 = transport.key();
        let user = match self.active.get(&key) {
            Some(id) => Some(*id),
            None => None,
        };
        self.forget_transport(transport);
        let ghost client = self@;
        match user {
            None => {
                output.push(Effect::Wake);
                let next = DriveNext { job: None, pause: None };
                assert(before.close_readable(transport, failed, until, effects, Seq::empty()));
                assert(HttpClientService::read_view(*self, *output, next) == before.closed(
                    transport,
                    failed,
                    until,
                    effects,
                    Seq::empty(),
                ));
                next
            },
            Some(id) => {
                if until && !failed {
                    match self.take(id) {
                        None => {},
                        Some(exchange) => {
                            let mut exchange = exchange;
                            let ghost x = exchange@;
                            exchange.body_ended = true;
                            exchange.proto = Some(Proto::Done);
                            exchange.reusable = Some(false);
                            assert(exchange@ =~= ExchangeView {
                                body_ended: true,
                                proto: Some(Stage::Done),
                                reusable: Some(false),
                                ..x
                            });
                            let ghost after = exchange@;
                            self.put(id, exchange);
                            proof {
                                lemma_put_back(client, id, after);
                            }
                        },
                    }
                    let ghost ended = self@;
                    let ghost middle = *self;
                    assert(ended == client.closed_off(id));
                    let next = self.drive_input(id, output);
                    proof {
                        let steps = choose|steps: Seq<Step>|
                            {
                                &&& ended.exchanges.dom().contains(id) ==> ended.readable(
                                    id,
                                    effects,
                                    steps,
                                )
                                &&& HttpClientService::read_view(*self, *output, next)
                                    == #[trigger] ended.driven(id, effects, steps)
                                &&& calls_read(
                                    middle,
                                    ended.exchanges[id],
                                    call_at(middle, id),
                                    id,
                                    effects,
                                    steps,
                                    *self,
                                )
                            };
                        assert(calls(middle).insert(id, call_at(*self, id)) =~= calls(
                            *old(self),
                        ).insert(id, call_at(*self, id)));
                        assert(close_left(
                            *old(self),
                            transport,
                            failed,
                            until,
                            effects,
                            steps,
                            *self,
                        ));
                        assert(before.close_readable(transport, failed, until, effects, steps));
                        assert(HttpClientService::read_view(*self, *output, next)
                            == before.closed(transport, failed, until, effects, steps));
                    }
                    next
                } else {
                    self.cancel(id, output);
                    let next = DriveNext { job: None, pause: None };
                    assert(calls(*self) =~= calls(*old(self)).remove(id));
                    assert(before.close_readable(
                        transport,
                        failed,
                        until,
                        effects,
                        Seq::empty(),
                    ));
                    assert(HttpClientService::read_view(*self, *output, next) == before.closed(
                        transport,
                        failed,
                        until,
                        effects,
                        Seq::empty(),
                    ));
                    next
                }
            },
        }
    }

    /// A connection is gone, and perhaps it failed.
    pub fn on_closed(&mut self, transport: TransportId, failed: bool, output: &mut ClientOutput) -> (
    next: DriveNext)
        ensures
            exists|until: bool, steps: Seq<Step>|
                {
                    &&& until == (old(self)@.active.dom().contains(transport.number()) && lasts(
                        old(self).exchanges@,
                        old(self)@.active[transport.number()],
                    ))
                    &&& old(self)@.close_readable(transport, failed, until, old(output)@, steps)
                    &&& HttpClientService::read_view(*final(self), *final(output), next)
                        == #[trigger] old(self)@.closed(
                        transport,
                        failed,
                        until,
                        old(output)@,
                        steps,
                    )
                    &&& close_left(
                        *old(self),
                        transport,
                        failed,
                        until,
                        old(output)@,
                        steps,
                        *final(self),
                    )
                },
    {
        let ghost before = self@;
        let ghost effects = output@;
        let key: u128 = transport.key();
        let until = match self.active.get(&key) {
            Some(id) => self.lasts_until_close(*id),
            None => false,
        };
        let next = self.went_away(transport, failed, until, output);
        proof {
            let steps = choose|steps: Seq<Step>|
                {
                    &&& before.close_readable(transport, failed, until, effects, steps)
                    &&& HttpClientService::read_view(*self, *output, next)
                        == #[trigger] before.closed(transport, failed, until, effects, steps)
                    &&& close_left(*old(self), transport, failed, until, effects, steps, *self)
                };
            assert(before.close_readable(transport, failed, until, effects, steps));
        }
        next
    }
}

/// What an event on a connection amounts to.
#[derive(Debug)]
pub enum Coming {
    Data { transport: TransportId, data: Vec<u8> },
    Closed { transport: TransportId, reason: Option<String> },
    Nothing,
}

/// What an event on a plain connection amounts to.
pub fn plain_coming(event: SocketEvent) -> (coming: Coming)
    ensures
        coming == match event {
            SocketEvent::Data { id, data } => Coming::Data {
                transport: TransportId::Plain(id),
                data,
            },
            SocketEvent::Close { id } => Coming::Closed {
                transport: TransportId::Plain(id),
                reason: None,
            },
            SocketEvent::Error { id, reason } => Coming::Closed {
                transport: TransportId::Plain(id),
                reason: Some(reason),
            },
            _ => Coming::Nothing,
        },
{
    match event {
        SocketEvent::Data { id, data } => Coming::Data { transport: TransportId::Plain(id), data },
        SocketEvent::Close { id } => Coming::Closed {
            transport: TransportId::Plain(id),
            reason: None,
        },
        SocketEvent::Error { id, reason } => Coming::Closed {
            transport: TransportId::Plain(id),
            reason: Some(reason),
        },
        _ => Coming::Nothing,
    }
}

/// What an event on a secure connection amounts to.
pub fn secure_coming(event: TlsEvent) -> (coming: Coming)
    ensures
        coming == match event {
            TlsEvent::Data { id, data } => Coming::Data { transport: TransportId::Tls(id), data },
            TlsEvent::Close { id } => Coming::Closed {
                transport: TransportId::Tls(id),
                reason: None,
            },
            TlsEvent::Error { id, reason } => Coming::Closed {
                transport: TransportId::Tls(id),
                reason: Some(reason),
            },
            _ => Coming::Nothing,
        },
{
    match event {
        TlsEvent::Data { id, data } => Coming::Data { transport: TransportId::Tls(id), data },
        TlsEvent::Close { id } => Coming::Closed {
            transport: TransportId::Tls(id),
            reason: None,
        },
        TlsEvent::Error { id, reason } => Coming::Closed {
            transport: TransportId::Tls(id),
            reason: Some(reason),
        },
        _ => Coming::Nothing,
    }
}

} // verus!
