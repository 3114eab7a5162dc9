//! What the client does on requests, on bytes that come in, and on timeouts.

#[allow(unused_imports)]
use crate::http::call::Proto;
use crate::http::client::{HttpClientService, QueuedStart};
#[allow(unused_imports)]
use crate::http::client::{without_token, ClientView, QueuedStartView, Started};
use crate::http::effect::{Answer, ClientOutput, Effect};
#[allow(unused_imports)]
use crate::http::effect::{reply, AnswerView, EffectView};
use crate::http::error::HttpError;
#[allow(unused_imports)]
use crate::http::error::HttpErrorView;
#[allow(unused_imports)]
use crate::http::exchange::{queued, ExchangeView};
#[allow(unused_imports)]
use crate::http::incoming::{call_at, calls, calls_kept};
use crate::http::origin::Origin;
#[allow(unused_imports)]
use crate::http::origin::{origin_of, OriginView};
#[allow(unused_imports)]
use crate::http::pool::lists;
use crate::http::receive::NextBody;
use crate::http::request::{Late, Wire};
#[allow(unused_imports)]
use crate::http::request::{
    chunk_left, chunk_note, finish_left, finish_note, late_left, late_step, may_finish, may_write,
    WireView, WriteNote,
};
use crate::http::start::drop_token;
use crate::http::transport::TransportId;
use crate::net::socket::Pending;
#[allow(unused_imports)]
use crate::places::{first_place, lemma_first_place_is};
use vstd::prelude::*;

verus! {

broadcast use vstd::std_specs::hash::group_hash_axioms;

impl ClientView {
    /// What is answered to a chunk that is not handed to the protocol.
    pub open spec fn chunk_answer(self, id: u64, size: int) -> Option<AnswerView> {
        if size == 0 {
            Some(AnswerView::Done)
        } else if size > self.config.max_chunk_size {
            Some(
                AnswerView::Failed(
                    HttpErrorView::BackpressureLimit {
                        actual: size,
                        limit: self.config.max_chunk_size as int,
                    },
                ),
            )
        } else if !self.exchanges.dom().contains(id) {
            Some(AnswerView::Failed(HttpErrorView::BodyClosed))
        } else {
            match self.exchanges[id].write_obstacle() {
                Some(error) => Some(AnswerView::Failed(error)),
                None => None,
            }
        }
    }

    /// The client after a chunk was handed to the protocol.
    pub open spec fn chunk_written(self, id: u64, size: int, note: WriteNote) -> ClientView {
        self.with(id, self.exchanges[id].after_write(size, note))
    }

    /// What finishing a request leads to without the protocol being asked.
    pub open spec fn finish_answer(self, id: u64) -> Option<AnswerView> {
        if self.exchanges.dom().contains(id) {
            self.exchanges[id].finish_answer()
        } else {
            Some(AnswerView::Failed(HttpErrorView::BodyClosed))
        }
    }

    /// The client with an exchange changed, where there is one with the number.
    pub open spec fn changed(self, id: u64, exchange: ExchangeView) -> ClientView {
        if self.exchanges.dom().contains(id) {
            self.with(id, exchange)
        } else {
            self
        }
    }
}

/// What a drop-in exchange amounts to: taking one out and putting one in changes only that one.
pub proof fn lemma_put_back(client: ClientView, id: u64, exchange: ExchangeView)
    requires
        client.exchanges.dom().contains(id),
    ensures
        (ClientView { exchanges: client.exchanges.remove(id), ..client }).with(id, exchange)
            == client.with(id, exchange),
        client.with(id, client.exchanges[id]) == client,
{
    assert((ClientView { exchanges: client.exchanges.remove(id), ..client }).with(id, exchange)
        =~= client.with(id, exchange));
    assert(client.with(id, client.exchanges[id]) =~= client);
}

impl HttpClientService {
    /// Writes a chunk of a request's body.
    pub fn write_request(&mut self, id: u64, chunk: &Vec<u8>) -> (wire: Wire)
        ensures
            match old(self)@.chunk_answer(id, chunk@.len() as int) {
                Some(answer) => wire@ == WireView::Answer(answer) && final(self)@ == old(self)@
                    && calls_kept(*old(self), *final(self)),
                None => ({
                    let call = call_at(*old(self), id)->0->SendBody_0;
                    let note = chunk_note(call, chunk@);
                    &&& may_write(chunk@, note)
                    &&& wire@ == old(self)@.exchanges[id].write_result(chunk@.len() as int, note)
                    &&& final(self)@ == old(self)@.chunk_written(id, chunk@.len() as int, note)
                    &&& calls(*final(self)) == calls(*old(self)).insert(
                        id,
                        Some(Proto::SendBody(chunk_left(call, chunk@))),
                    )
                }),
            },
    {
        let size: usize = chunk.len();
        if size == 0 {
            return Wire::Answer(Answer::Done);
        }
        let limit: usize = self.config.max_chunk_size;
        if size > limit {
            return Wire::Answer(
                Answer::Failed(HttpError::BackpressureLimit { actual: size, limit }),
            );
        }
        let ghost before = self@;
        match self.take(id) {
            None => Wire::Answer(Answer::Failed(HttpError::BodyClosed)),
            Some(exchange) => {
                let mut exchange = exchange;
                let ghost x = exchange@;
                let wire = exchange.write(chunk);
                let ghost written = exchange@;
                let ghost left = exchange.proto;
                self.put(id, exchange);
                proof {
                    lemma_put_back(before, id, written);
                    assert(calls(*self) =~= calls(*old(self)).insert(id, left));
                }
                wire
            },
        }
    }

    /// Someone hands over a chunk of a request's body. Nothing is said back where the chunk waits
    /// for leave.
    pub fn defer_continue_write(
        &mut self,
        pending: Pending,
        id: u64,
        chunk: Vec<u8>,
        output: &mut ClientOutput,
    ) -> (back: Option<Vec<u8>>)
        ensures
            if old(self)@.exchanges.dom().contains(id) && old(self)@.exchanges[id].defers(chunk@) {
                &&& back is None
                &&& final(self)@ == old(self)@.with(
                    id,
                    old(self)@.exchanges[id].deferred(pending, chunk@),
                )
                &&& final(output)@ == old(self)@.exchanges[id].deferring(old(output)@, pending)
            } else {
                &&& back == Some(chunk)
                &&& final(self)@ == old(self)@
                &&& final(output)@ == old(output)@
            },
            calls_kept(*old(self), *final(self)),
    {
        let ghost before = self@;
        match self.take(id) {
            None => Some(chunk),
            Some(exchange) => {
                let mut exchange = exchange;
                let back = exchange.defer(pending, chunk, output);
                let ghost after = exchange@;
                self.put(id, exchange);
                proof {
                    lemma_put_back(before, id, after);
                }
                back
            },
        }
    }

    /// Finishes a request.
    pub fn finish_request(&mut self, id: u64) -> (wire: Wire)
        ensures
            match old(self)@.finish_answer(id) {
                Some(answer) => {
                    &&& wire@ == WireView::Answer(answer)
                    &&& final(self)@ == old(self)@.changed(
                        id,
                        old(self)@.exchanges[id].finish_asked(),
                    )
                    &&& calls_kept(*old(self), *final(self))
                },
                None => ({
                    let call = call_at(*old(self), id)->0->SendBody_0;
                    let note = finish_note(call);
                    &&& may_finish(note)
                    &&& wire@ == old(self)@.exchanges[id].finish_result(note)
                    &&& final(self)@ == old(self)@.with(
                        id,
                        old(self)@.exchanges[id].after_finish(note),
                    )
                    &&& calls(*final(self)) == calls(*old(self)).insert(id, finish_left(call))
                }),
            },
    {
        let ghost before = self@;
        match self.take(id) {
            None => Wire::Answer(Answer::Failed(HttpError::BodyClosed)),
            Some(exchange) => {
                let mut exchange = exchange;
                let wire = exchange.finish();
                let ghost after = exchange@;
                let ghost left = exchange.proto;
                self.put(id, exchange);
                proof {
                    lemma_put_back(before, id, after);
                    assert(calls(*self) =~= calls(*old(self)).insert(id, left));
                }
                wire
            },
        }
    }
}

impl ClientView {
    /// The client after someone asked for a response.
    pub open spec fn response_asked(self, id: u64, pending: Pending) -> ClientView {
        self.changed(id, self.exchanges[id].response_asked(pending))
    }

    /// What is answered to that, or from when on nobody waits.
    pub open spec fn response_asking(
        self,
        id: u64,
        pending: Pending,
        effects: Seq<EffectView>,
    ) -> Seq<EffectView> {
        if !self.exchanges.dom().contains(id) {
            reply(effects, pending, AnswerView::Failed(HttpErrorView::BodyClosed))
        } else {
            match self.exchanges[id].response_answer(id, pending) {
                Some(answer) => reply(effects, pending, answer),
                None => effects.push(
                    EffectView::WaitTimeout {
                        id,
                        session: pending.session,
                        body: false,
                        after_ms: self.config.response_head_timeout_ms,
                    },
                ),
            }
        }
    }
}

/// A connection that an exchange needs no longer.
pub struct Leftover {
    pub transport: TransportId,
    pub origin: Origin,
    pub reusable: bool,
}

/// What asking for the next part of a body comes to, once the connection receives again where it
/// is to.
pub struct BodyStep {
    pub id: u64,
    pub pending: Pending,
    pub answer: Option<Answer>,
    /// The connection that is to receive again first.
    pub resume: Option<TransportId>,
    pub leftover: Option<Leftover>,
}

/// What a [`BodyStep`] says.
#[verifier::ext_equal]
pub struct BodyStepView {
    pub id: u64,
    pub pending: Pending,
    pub answer: Option<AnswerView>,
    pub resume: Option<TransportId>,
    pub leftover: Option<(TransportId, OriginView, bool)>,
}

impl View for BodyStep {
    type V = BodyStepView;

    open spec fn view(&self) -> BodyStepView {
        BodyStepView {
            id: self.id,
            pending: self.pending,
            answer: match self.answer {
                Some(answer) => Some(answer@),
                None => None,
            },
            resume: self.resume,
            leftover: match self.leftover {
                Some(leftover) => Some(
                    (leftover.transport, leftover.origin@, leftover.reusable),
                ),
                None => None,
            },
        }
    }
}

impl ClientView {
    /// What asking for the next part of a body comes to.
    pub open spec fn body_step(self, id: u64, pending: Pending) -> BodyStepView {
        let x = self.exchanges[id];
        BodyStepView {
            id,
            pending,
            answer: x.next_answer(),
            resume: if x.next_resumes(self.config.input_low_water) {
                Some(x.transport)
            } else {
                None
            },
            leftover: match x.next_ends() {
                Some(reusable) => Some((x.transport, x.origin, reusable)),
                None => None,
            },
        }
    }

    /// The client when that was answered: an exchange whose body has ended is over.
    pub open spec fn body_done(self, step: BodyStepView) -> ClientView {
        match step.leftover {
            Some((transport, origin, reusable)) => {
                let client = self.recycled(transport, origin, reusable);
                ClientView { exchanges: client.exchanges.remove(step.id), ..client }
            },
            None => self,
        }
    }

    /// What that leaves to be done.
    pub open spec fn body_effects(self, step: BodyStepView, effects: Seq<EffectView>) -> Seq<
        EffectView,
    > {
        let effects = match step.answer {
            Some(answer) => reply(effects, step.pending, answer),
            None => effects,
        };
        match step.leftover {
            Some((transport, origin, reusable)) => self.recycling(
                transport,
                origin,
                reusable,
                effects,
            ),
            None => effects.push(
                EffectView::WaitTimeout {
                    id: step.id,
                    session: step.pending.session,
                    body: true,
                    after_ms: self.config.body_idle_timeout_ms,
                },
            ),
        }
    }
}

impl HttpClientService {
    /// Someone asks for a response.
    pub fn wait_response(&mut self, pending: Pending, id: u64, output: &mut ClientOutput)
        ensures
            final(self)@ == old(self)@.response_asked(id, pending),
            final(output)@ == old(self)@.response_asking(id, pending, old(output)@),
            calls_kept(*old(self), *final(self)),
    {
        let ghost before = self@;
        match self.take(id) {
            None => {
                output.reply(pending, Answer::Failed(HttpError::BodyClosed));
            },
            Some(exchange) => {
                let mut exchange = exchange;
                let answer = exchange.ask_response(id, pending);
                let ghost after = exchange@;
                self.put(id, exchange);
                proof {
                    lemma_put_back(before, id, after);
                }
                match answer {
                    Some(answer) => {
                        output.reply(pending, answer);
                    },
                    None => {
                        output.push(
                            Effect::WaitTimeout {
                                id,
                                session: pending.session,
                                body: false,
                                after_ms: self.config.response_head_timeout_ms,
                            },
                        );
                    },
                }
            },
        }
    }

    /// Someone asks for the next part of a body. What that comes to is handed back, to be
    /// answered once the connection receives again where it is to.
    pub fn next_body(&mut self, pending: Pending, id: u64, output: &mut ClientOutput) -> (step:
        Option<BodyStep>)
        ensures
            match step {
                Some(step) => {
                    &&& old(self)@.exchanges.dom().contains(id)
                    &&& step@ == old(self)@.body_step(id, pending)
                    &&& final(self)@ == old(self)@.with(
                        id,
                        old(self)@.exchanges[id].next_asked(
                            pending,
                            old(self)@.config.input_low_water,
                        ),
                    )
                    &&& final(output)@ == old(output)@
                },
                None => {
                    &&& !old(self)@.exchanges.dom().contains(id)
                    &&& final(self)@ == old(self)@
                    &&& final(output)@ == reply(
                        old(output)@,
                        pending,
                        AnswerView::Failed(HttpErrorView::BodyClosed),
                    )
                },
            },
            calls_kept(*old(self), *final(self)),
    {
        let ghost before = self@;
        match self.take(id) {
            None => {
                output.reply(pending, Answer::Failed(HttpError::BodyClosed));
                None
            },
            Some(exchange) => {
                let mut exchange = exchange;
                let next = exchange.ask_body(pending, self.config.input_low_water);
                let NextBody { answer, resume, ends } = next;
                let transport = exchange.transport;
                let leftover = match ends {
                    Some(reusable) => Some(
                        Leftover { transport, origin: exchange.origin.copy(), reusable },
                    ),
                    None => None,
                };
                let resume = if resume {
                    Some(transport)
                } else {
                    None
                };
                let ghost after = exchange@;
                self.put(id, exchange);
                proof {
                    lemma_put_back(before, id, after);
                }
                let step = BodyStep { id, pending, answer, resume, leftover };
                assert(step@ =~= before.body_step(id, pending));
                Some(step)
            },
        }
    }

    /// Answers someone who asked for the next part of a body.
    pub fn answer_body(&mut self, step: BodyStep, output: &mut ClientOutput)
        ensures
            final(self)@ == old(self)@.body_done(step@),
            final(output)@ == old(self)@.body_effects(step@, old(output)@),
            calls_kept(*old(self), *final(self)),
    {
        let ghost view = step@;
        let ghost before = self@;
        let BodyStep { id, pending, answer, resume, leftover } = step;
        if let Some(answer) = answer {
            output.reply(pending, answer);
        }
        match leftover {
            Some(leftover) => {
                self.recycle(leftover.transport, &leftover.origin, leftover.reusable, output);
                let _ = self.exchanges.remove(&id);
                assert(self@ =~= before.body_done(view));
            },
            None => {
                output.push(
                    Effect::WaitTimeout {
                        id,
                        session: pending.session,
                        body: true,
                        after_ms: self.config.body_idle_timeout_ms,
                    },
                );
            },
        }
    }

    /// The time is over in which the server was to say whether it wants the body.
    pub fn continue_timeout(&mut self, id: u64, output: &mut ClientOutput) -> (late: Late)
        ensures
            !old(self)@.exchanges.dom().contains(id) ==> {
                &&& final(self)@ == old(self)@
                &&& final(output)@ == old(output)@
                &&& late.job is None
                &&& !late.read
                &&& calls_kept(*old(self), *final(self))
            },
            old(self)@.exchanges.dom().contains(id) ==> ({
                let note = late_step(call_at(*old(self), id));
                &&& !(note is Failed)
                &&& final(self)@ == old(self)@.with(id, old(self)@.exchanges[id].late(note))
                &&& final(output)@ == old(self)@.exchanges[id].late_effects(old(output)@, note)
                &&& queued(late.job) == old(self)@.exchanges[id].late_job(note)
                &&& late.read == old(self)@.exchanges[id].late_reads(note)
                &&& calls(*final(self)) == calls(*old(self)).insert(
                    id,
                    late_left(call_at(*old(self), id)),
                )
            }),
    {
        let ghost before = self@;
        match self.take(id) {
            None => Late { job: None, read: false },
            Some(exchange) => {
                let mut exchange = exchange;
                let late = exchange.too_late(output);
                let ghost after = exchange@;
                let ghost left = exchange.proto;
                self.put(id, exchange);
                proof {
                    lemma_put_back(before, id, after);
                    assert(calls(*self) =~= calls(*old(self)).insert(id, left));
                }
                late
            },
        }
    }
}

impl ClientView {
    /// Who waited too long.
    pub open spec fn late_waiter(self, id: u64, session: u64, body: bool) -> Option<Pending> {
        if self.exchanges.dom().contains(id) {
            self.exchanges[id].waiter(session, body)
        } else {
            None
        }
    }

    /// The client when someone waited too long: the exchange is given up.
    pub open spec fn wait_over(self, id: u64, session: u64, body: bool) -> ClientView {
        if self.late_waiter(id, session, body) is Some {
            self.canceled(id)
        } else {
            self
        }
    }

    /// What that leaves to be done.
    pub open spec fn wait_effects(
        self,
        id: u64,
        session: u64,
        body: bool,
        effects: Seq<EffectView>,
    ) -> Seq<EffectView> {
        match self.late_waiter(id, session, body) {
            Some(pending) => self.with(id, self.exchanges[id].unwaited(session, body)).canceling(
                id,
                reply(
                    effects,
                    pending,
                    AnswerView::Failed(
                        HttpErrorView::Timeout(
                            if body {
                                "body idle"@
                            } else {
                                "response head"@
                            },
                        ),
                    ),
                ),
            ),
            None => effects,
        }
    }

    /// Whether a connection has been idle since the idleness with a number began.
    pub open spec fn idle_since(self, transport: TransportId, generation: u64) -> bool {
        &&& self.generations.dom().contains(transport.number())
        &&& self.generations[transport.number()] == generation
        &&& lists(self.idle, transport)
    }

    /// The client when a connection may have been idle too long.
    pub open spec fn idle_over(self, transport: TransportId, generation: u64) -> ClientView {
        if self.idle_since(transport, generation) {
            self.forgot(transport)
        } else {
            self
        }
    }

    /// What that leaves to be done.
    pub open spec fn idling_over(
        self,
        transport: TransportId,
        generation: u64,
        effects: Seq<EffectView>,
    ) -> Seq<EffectView> {
        if self.idle_since(transport, generation) {
            effects.push(EffectView::Shutdown(transport)).push(EffectView::Wake)
        } else {
            effects
        }
    }

    /// What is noted of the exchange that a token stands for.
    pub open spec fn start_of(self, token: u64) -> Option<u64> {
        let place = first_place(self.started, |s: Started| s.token == token);
        if place < self.started.len() {
            Some(self.started[place].exchange)
        } else {
            None
        }
    }

    /// The client without the start that a token stands for.
    pub open spec fn start_dropped(self, token: u64) -> ClientView {
        ClientView {
            waiting: self.waiting.filter(|q: QueuedStartView| q.token != token),
            started: without_token(self.started, token),
            ..self
        }
    }

    /// The client when whoever started an exchange wants it no longer.
    pub open spec fn start_canceled(self, token: u64) -> ClientView {
        match self.start_of(token) {
            Some(id) => self.start_dropped(token).canceled(id),
            None => self.start_dropped(token),
        }
    }

    /// What that leaves to be done.
    pub open spec fn start_canceling(self, token: u64, effects: Seq<EffectView>) -> Seq<EffectView> {
        match self.start_of(token) {
            Some(id) => self.start_dropped(token).canceling(id, effects),
            None => effects.push(EffectView::Wake),
        }
    }

    /// Whether a start that waits can go on.
    pub open spec fn ready(self, start: QueuedStartView) -> bool {
        origin_of(start.request.uri) matches Ok(origin) && self.can_start(origin)
    }

    /// The starts that somebody still waits for.
    pub open spec fn wanted(self, gone: Seq<u64>) -> Seq<QueuedStartView> {
        self.waiting.filter(|q: QueuedStartView| !gone.contains(q.token))
    }

    /// The place of the first start that can go on.
    pub open spec fn ready_place(self, gone: Seq<u64>) -> int {
        first_place(self.wanted(gone), |q: QueuedStartView| self.ready(q))
    }
}

/// Whether a number is in a list.
fn contains(numbers: &Vec<u64>, number: u64) -> (found: bool)
    ensures
        found == numbers@.contains(number),
{
    let mut i: usize = 0;
    while i < numbers.len()
        invariant
            i <= numbers@.len(),
            forall|k: int| 0 <= k < i ==> numbers@[k] != number,
        decreases numbers@.len() - i,
    {
        if numbers[i] == number {
            return true;
        }
        i += 1;
    }
    false
}

/// What a list of starts says.
pub open spec fn starts_view(starts: Seq<QueuedStart>) -> Seq<QueuedStartView> {
    starts.map_values(|q: QueuedStart| q@)
}

/// Takes the starts with tokens in a list away.
fn drop_starts(waiting: &mut Vec<QueuedStart>, gone: &Vec<u64>)
    ensures
        starts_view(final(waiting)@) == starts_view(old(waiting)@).filter(
            |q: QueuedStartView| !gone@.contains(q.token),
        ),
{
    let ghost all = starts_view(waiting@);
    let ghost holds = |q: QueuedStartView| !gone@.contains(q.token);
    let mut kept: Vec<QueuedStart> = Vec::new();
    let ghost mut done: int = 0;
    assert(all.take(0).filter(holds) =~= Seq::empty());
    assert(starts_view(kept@) =~= Seq::empty());
    assert(starts_view(waiting@) =~= all.skip(0));
    while waiting.len() > 0
        invariant
            0 <= done <= all.len(),
            starts_view(waiting@) == all.skip(done),
            waiting@.len() == all.len() - done,
            holds == |q: QueuedStartView| !gone@.contains(q.token),
            starts_view(kept@) == all.take(done).filter(holds),
        decreases waiting@.len(),
    {
        let ghost before = waiting@;
        let start = waiting.remove(0);
        assert(all.take(done + 1).drop_last() =~= all.take(done));
        assert(all.skip(done)[0] == start@);
        assert(all.take(done + 1).last() == start@);
        reveal(Seq::filter);
        if !contains(gone, start.token) {
            let ghost shorter = kept@;
            kept.push(start);
            assert(starts_view(kept@) =~= starts_view(shorter).push(start@));
        }
        assert(starts_view(waiting@) =~= starts_view(before).skip(1));
        assert(starts_view(before).skip(1) =~= all.skip(done + 1));
        proof {
            done = done + 1;
        }
    }
    assert(all.take(done) =~= all);
    *waiting = kept;
}

impl HttpClientService {
    /// Someone may have waited too long.
    pub fn wait_timeout(&mut self, id: u64, session: u64, body: bool, output: &mut ClientOutput)
        ensures
            final(self)@ == old(self)@.wait_over(id, session, body),
            final(output)@ == old(self)@.wait_effects(id, session, body, old(output)@),
            calls_kept(*old(self), *final(self)),
    {
        let ghost before = self@;
        match self.take(id) {
            None => {},
            Some(exchange) => {
                let mut exchange = exchange;
                let ghost x = exchange@;
                let waiting = exchange.give_up_waiting(session, body);
                let ghost after = exchange@;
                self.put(id, exchange);
                proof {
                    lemma_put_back(before, id, after);
                }
                if let Some(pending) = waiting {
                    let stage = if body {
                        "body idle"
                    } else {
                        "response head"
                    };
                    output.reply(pending, Answer::Failed(HttpError::Timeout(stage)));
                    self.cancel(id, output);
                    assert(before.with(id, after).canceled(id) =~= before.canceled(id)) by {
                        assert(before.with(id, after).exchanges.remove(id)
                            =~= before.exchanges.remove(id));
                    }
                }
            },
        }
    }

    /// A connection may have been idle too long.
    pub fn idle_timeout(
        &mut self,
        transport: TransportId,
        generation: u64,
        output: &mut ClientOutput,
    )
        ensures
            old(self)@.idle_since(transport, generation) ==> {
                &&& final(self)@ == old(self)@.forgot(transport)
                &&& final(output)@ == old(output)@.push(EffectView::Shutdown(transport)).push(
                    EffectView::Wake,
                )
            },
            !old(self)@.idle_since(transport, generation) ==> {
                &&& final(self)@ == old(self)@
                &&& final(output)@ == old(output)@
            },
            final(self)@ == old(self)@.idle_over(transport, generation),
            final(output)@ == old(self)@.idling_over(transport, generation, old(output)@),
            calls_kept(*old(self), *final(self)),
    {
        let key: u128 = transport.key();
        let current = match self.generations.get(&key) {
            Some(current) => *current == generation,
            None => false,
        };
        if !current {
            return;
        }
        let ghost idle = self@.idle;
        let mut found = false;
        let mut i: usize = 0;
        while i < self.idle.len()
            invariant
                i <= self.idle@.len(),
                self@ == old(self)@,
                idle == self@.idle,
                found == exists|k: int| 0 <= k < i && #[trigger] idle[k].0 == transport,
            decreases self.idle@.len() - i,
        {
            assert(idle[i as int] == self.idle@[i as int]@);
            if self.idle[i].transport == transport {
                assert(idle[i as int].0 == transport);
                found = true;
            }
            i += 1;
        }
        if found {
            output.push(Effect::Shutdown(transport));
            self.forget_transport(transport);
            output.push(Effect::Wake);
        }
    }

    /// Whoever started an exchange wants it no longer.
    pub fn cancel_start(&mut self, token: u64, output: &mut ClientOutput)
        ensures
            final(self)@ == old(self)@.start_canceled(token),
            final(output)@ == old(self)@.start_canceling(token, old(output)@),
            calls_kept(*old(self), *final(self)),
    {
        let ghost before = self@;
        let ghost holds = |s: Started| s.token == token;
        let mut found: Option<u64> = None;
        let mut i: usize = 0;
        while i < self.started.len() && found.is_none()
            invariant
                i <= self.started@.len(),
                self@ == before,
                holds == |s: Started| s.token == token,
                found is None ==> forall|k: int| 0 <= k < i ==> !holds(#[trigger] before.started[k]),
                found is Some ==> {
                    &&& 0 < i
                    &&& holds(before.started[i - 1])
                    &&& found == Some(before.started[i - 1].exchange)
                    &&& forall|k: int| 0 <= k < i - 1 ==> !holds(#[trigger] before.started[k])
                },
            decreases self.started@.len() - i,
        {
            if self.started[i].token == token {
                found = Some(self.started[i].exchange);
            }
            i += 1;
        }
        proof {
            lemma_first_place_is(
                before.started,
                holds,
                if found is Some {
                    i - 1
                } else {
                    i as int
                },
            );
        }
        assert(found == before.start_of(token));
        let mut gone: Vec<u64> = Vec::new();
        gone.push(token);
        drop_starts(&mut self.waiting, &gone);
        drop_token(&mut self.started, token);
        proof {
            let one = |q: QueuedStartView| !gone@.contains(q.token);
            let other = |q: QueuedStartView| q.token != token;
            assert forall|q: QueuedStartView| #[trigger] one(q) == other(q) by {
                assert(gone@[0] == token);
                if gone@.contains(q.token) {
                    let k = choose|k: int| 0 <= k < gone@.len() && gone@[k] == q.token;
                }
            }
            assert(one =~= other);
        }
        assert(self@ =~= before.start_dropped(token));
        match found {
            Some(id) => {
                self.cancel(id, output);
            },
            None => {
                output.push(Effect::Wake);
            },
        }
    }

    /// Whoever started an exchange knows its number.
    pub fn confirm_start(&mut self, token: u64)
        ensures
            final(self)@ == (ClientView {
                started: without_token(old(self)@.started, token),
                ..old(self)@
            }),
            calls_kept(*old(self), *final(self)),
    {
        drop_token(&mut self.started, token);
        assert(self@ =~= (ClientView {
            started: without_token(old(self)@.started, token),
            ..old(self)@
        }));
    }

    /// Hands out the first start that can go on now. `gone` lists the tokens of those that nobody
    /// waits for any more.
    pub fn wake_queued(&mut self, gone: &Vec<u64>) -> (start: Option<QueuedStart>)
        ensures
            match start {
                Some(start) => {
                    let place = old(self)@.ready_place(gone@);
                    &&& place < old(self)@.wanted(gone@).len()
                    &&& start@ == old(self)@.wanted(gone@)[place]
                    &&& final(self)@ == (ClientView {
                        waiting: old(self)@.wanted(gone@).remove(place),
                        ..old(self)@
                    })
                },
                None => {
                    &&& old(self)@.ready_place(gone@) >= old(self)@.wanted(gone@).len()
                    &&& final(self)@ == (ClientView {
                        waiting: old(self)@.wanted(gone@),
                        ..old(self)@
                    })
                },
            },
            calls_kept(*old(self), *final(self)),
    {
        let ghost before = self@;
        let ghost wanted = self@.wanted(gone@);
        let ghost holds = |q: QueuedStartView| before.ready(q);
        drop_starts(&mut self.waiting, gone);
        assert(self@ =~= (ClientView { waiting: wanted, ..before }));
        let mut i: usize = 0;
        let mut found = false;
        while i < self.waiting.len() && !found
            invariant
                i <= self.waiting@.len(),
                self@ == (ClientView { waiting: wanted, ..before }),
                holds == |q: QueuedStartView| before.ready(q),
                forall|k: int| 0 <= k < i ==> !holds(#[trigger] wanted[k]),
                found ==> i < self.waiting@.len() && holds(wanted[i as int]),
            decreases
                self.waiting@.len() - i + (if found {
                    0int
                } else {
                    1int
                }),
        {
            assert(wanted[i as int] == self.waiting@[i as int]@);
            let ready = match Origin::from_uri(self.waiting[i].request.uri.as_str()) {
                Ok(origin) => self.can_start(&origin),
                Err(_) => false,
            };
            assert(ready == before.ready(wanted[i as int]));
            if ready {
                found = true;
            } else {
                i += 1;
            }
        }
        proof {
            lemma_first_place_is(wanted, holds, i as int);
        }
        if found {
            let start = self.waiting.remove(i);
            assert(self@ =~= (ClientView { waiting: wanted.remove(i as int), ..before }));
            Some(start)
        } else {
            None
        }
    }
}

} // verus!
