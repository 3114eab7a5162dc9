//! One request and its response.

use crate::http::body::{BodySource, IncomingBody};
use crate::http::call::{
    after_await, after_recv_body, after_redirect, after_response, body_may_end, must_close,
    read_100, read_body, read_head, until_close, AfterAwait, AfterRecvBody, AfterResponse,
    Awaiting, BodyRead, HeadRead, Proto, Receiving,
};
#[allow(unused_imports)]
use crate::http::call::{
    await_next, awaiting, body_ends, body_lasts, body_read, closes, continue_read, recv_body_next,
    redirect_next, response_next, response_read, stage_of, Stage,
};
use crate::http::effect::{Answer, ClientOutput};
#[allow(unused_imports)]
use crate::http::effect::{reply, reply_to, AnswerView, EffectView};
use crate::http::error::HttpError;
#[allow(unused_imports)]
use crate::http::error::HttpErrorView;
use crate::http::origin::Origin;
#[allow(unused_imports)]
use crate::http::origin::{optional, OriginView};
use crate::http::transport::TransportId;
use crate::net::socket::Pending;
use std::collections::VecDeque;
use ureq_proto::client::state::{RecvBody, RecvResponse, SendBody};
use ureq_proto::client::Call;
use ureq_proto::http::Response;
use vstd::prelude::*;

verus! {

/// A chunk of a request's body, and who waits until it is sent.
#[derive(Debug)]
pub struct QueuedChunk {
    pub pending: Pending,
    pub chunk: Vec<u8>,
}

/// What a chunk that may be missing says.
pub open spec fn queued(chunk: Option<QueuedChunk>) -> Option<(Pending, Seq<u8>)> {
    match chunk {
        Some(chunk) => Some((chunk.pending, chunk.chunk@)),
        None => None,
    }
}

/// Who waits until a chunk is sent.
pub open spec fn waiting_for(chunk: Option<(Pending, Seq<u8>)>) -> Option<Pending> {
    match chunk {
        Some(chunk) => Some(chunk.0),
        None => None,
    }
}

/// One request and its response.
pub struct Exchange {
    /// The connection.
    pub transport: TransportId,
    /// Where it leads.
    pub origin: Origin,
    /// How far the protocol has come; nothing after it was broken.
    pub proto: Option<Proto>,
    /// What came in and is not read yet.
    pub input: Vec<u8>,
    /// The head of the response, until it is taken.
    pub response: Option<Response<()>>,
    pub response_taken: bool,
    pub response_waiter: Option<Pending>,
    /// The one chunk that waits for leave to be sent.
    pub write_waiter: Option<QueuedChunk>,
    /// The parts of the response's body that nobody has taken yet.
    pub chunks: VecDeque<Vec<u8>>,
    pub body_waiter: Option<Pending>,
    pub body_ended: bool,
    /// What broke the exchange.
    pub error: Option<String>,
    /// Whether the connection was asked to receive nothing for a while.
    pub paused: bool,
    pub request_finished: bool,
    /// How long the request's body is to be, where that was said.
    pub request_expected: Option<u64>,
    /// How much of the request's body was written.
    pub request_written: u64,
    /// Whether the connection serves for another exchange, once that is known.
    pub reusable: Option<bool>,
}

/// What an [`Exchange`] holds.
#[verifier::ext_equal]
pub struct ExchangeView {
    pub transport: TransportId,
    pub origin: OriginView,
    pub proto: Option<Stage>,
    pub input: Seq<u8>,
    pub response: Option<Response<()>>,
    pub response_taken: bool,
    pub response_waiter: Option<Pending>,
    pub write_waiter: Option<(Pending, Seq<u8>)>,
    pub chunks: Seq<Seq<u8>>,
    pub body_waiter: Option<Pending>,
    pub body_ended: bool,
    pub error: Option<Seq<char>>,
    pub paused: bool,
    pub request_finished: bool,
    pub request_expected: Option<u64>,
    pub request_written: u64,
    pub reusable: Option<bool>,
}

impl View for Exchange {
    type V = ExchangeView;

    open spec fn view(&self) -> ExchangeView {
        ExchangeView {
            transport: self.transport,
            origin: self.origin@,
            proto: stage_of(self.proto),
            input: self.input@,
            response: self.response,
            response_taken: self.response_taken,
            response_waiter: self.response_waiter,
            write_waiter: queued(self.write_waiter),
            chunks: self.chunks@.map_values(|c: Vec<u8>| c@),
            body_waiter: self.body_waiter,
            body_ended: self.body_ended,
            error: optional(self.error),
            paused: self.paused,
            request_finished: self.request_finished,
            request_expected: self.request_expected,
            request_written: self.request_written,
            reusable: self.reusable,
        }
    }
}

/// The bytes of several chunks.
pub open spec fn total(chunks: Seq<Seq<u8>>) -> nat
    decreases chunks.len(),
{
    if chunks.len() == 0 {
        0
    } else {
        total(chunks.drop_last()) + chunks.last().len()
    }
}

/// How many bytes a buffer and the chunks behind it hold.
pub fn buffered_bytes(input: &Vec<u8>, chunks: &VecDeque<Vec<u8>>) -> (size: u128)
    ensures
        size == input@.len() + total(chunks@.map_values(|c: Vec<u8>| c@)),
{
    let ghost all = chunks@.map_values(|c: Vec<u8>| c@);
    let count: usize = chunks.len();
    let mut size: u128 = input.len() as u128;
    let mut i: usize = 0;
    while i < count
        invariant
            i <= count == chunks@.len(),
            all == chunks@.map_values(|c: Vec<u8>| c@),
            size == input@.len() + total(all.take(i as int)),
            size <= (i + 1) * 0xffff_ffff_ffff_ffff,
        decreases count - i,
    {
        let length: usize = chunks[i].len();
        assert(all.take(i + 1).drop_last() =~= all.take(i as int));
        assert(all.take(i + 1).last() == chunks@[i as int]@);
        assert((i + 1) * 0xffff_ffff_ffff_ffff + 0xffff_ffff_ffff_ffff == (i + 2)
            * 0xffff_ffff_ffff_ffff) by (nonlinear_arith);
        assert((i + 2) * 0xffff_ffff_ffff_ffff
            <= 0xffff_ffff_ffff_ffff_ffff_ffff_ffff_ffff) by (nonlinear_arith)
            requires
                i + 1 <= 0xffff_ffff_ffff_ffff,
        ;
        size = size + length as u128;
        i += 1;
    }
    assert(all.take(i as int) =~= all);
    size
}

impl ExchangeView {
    /// How many bytes wait to be read or taken.
    pub open spec fn buffered(self) -> nat {
        self.input.len() + total(self.chunks)
    }

    /// The exchange is broken: nothing more is read.
    pub open spec fn broken(self, reason: Seq<char>) -> ExchangeView {
        ExchangeView { proto: None, error: Some(reason), ..self }
    }
}

/// Where reading leads when the server says whether it wants the body.
#[verifier::ext_equal]
pub enum AwaitNext {
    Keep,
    SendBody,
    RecvResponse,
    Failed(Seq<char>),
}

/// Where reading leads when the response's head has come.
pub enum HeadNext {
    Body,
    /// There is no body; the connection can be used again, or not.
    Over(bool),
    Stuck,
}

/// Where reading leads after a part of the response's body.
pub enum BodyNext {
    More,
    /// The body is whole; the connection can be used again, or not.
    Over(bool),
    Stuck,
}

/// One step of reading what came in, with what the protocol made of it.
#[verifier::ext_equal]
#[allow(inconsistent_fields)]
pub enum Step {
    /// The protocol was broken before.
    Lost,
    Await { used: int, next: AwaitNext },
    AwaitFailed(Seq<char>),
    Head { used: int, response: Response<()>, next: HeadNext },
    HeadPartial,
    HeadFailed(Seq<char>),
    Body { used: int, data: Seq<u8>, next: BodyNext },
    BodyFailed(Seq<char>),
    /// Nothing can be read at this stage, or nothing is there.
    Idle,
}

/// An exchange that is read, and what that leads to.
#[verifier::ext_equal]
pub struct DriveView {
    pub exchange: ExchangeView,
    pub effects: Seq<EffectView>,
    /// A chunk that can be sent now.
    pub job: Option<(Pending, Seq<u8>)>,
    /// Whether more can be read.
    pub more: bool,
}

/// What is said where a head was read whole and the protocol goes nowhere from there.
pub open spec fn stuck() -> Seq<char> {
    "响应状态无法推进"@
}

/// What a call at the stage before the body makes of an input.
pub open spec fn await_step(call: Awaiting, input: Seq<u8>) -> Step {
    let (used, after) = continue_read(call.call(), input);
    match used {
        Err(reason) => Step::AwaitFailed(reason),
        Ok(used) => Step::Await {
            used,
            next: if awaiting(after) {
                AwaitNext::Keep
            } else {
                match await_next(after) {
                    AfterAwait::SendBody(_) => AwaitNext::SendBody,
                    AfterAwait::RecvResponse(_) => AwaitNext::RecvResponse,
                    AfterAwait::Failed(reason) => AwaitNext::Failed(reason@),
                }
            },
        },
    }
}

/// Where a call goes that has read the head of the response.
pub open spec fn head_next(call: Call<RecvResponse>) -> HeadNext {
    match response_next(call) {
        AfterResponse::RecvBody(_) => HeadNext::Body,
        AfterResponse::Redirect(call) => HeadNext::Over(!closes(redirect_next(call))),
        AfterResponse::Cleanup(call) => HeadNext::Over(!closes(call)),
        AfterResponse::Stuck => HeadNext::Stuck,
    }
}

/// What a call that awaits the head of the response makes of an input.
pub open spec fn head_step(call: Receiving, input: Seq<u8>) -> Step {
    match response_read(call.call(), input) {
        HeadRead::Failed(reason) => Step::HeadFailed(reason@),
        HeadRead::Partial(_) => Step::HeadPartial,
        HeadRead::Whole { used, response, call } => Step::Head {
            used: used as int,
            response,
            next: head_next(call),
        },
    }
}

/// Where a call goes that has read a part of the response's body. A body that lasts until the
/// connection closes does not end here.
pub open spec fn body_next(call: Call<RecvBody>) -> BodyNext {
    if body_ends(call) && !body_lasts(call) {
        match recv_body_next(call) {
            AfterRecvBody::Redirect(call) => BodyNext::Over(!closes(redirect_next(call))),
            AfterRecvBody::Cleanup(call) => BodyNext::Over(!closes(call)),
            AfterRecvBody::Stuck => BodyNext::Stuck,
        }
    } else {
        BodyNext::More
    }
}

/// What a call that receives the response's body makes of an input.
pub open spec fn body_step(call: Call<RecvBody>, input: Seq<u8>, room: int) -> Step {
    let (read, after) = body_read(call, input, room);
    match read {
        Err(reason) => Step::BodyFailed(reason),
        Ok((used, data)) => Step::Body { used, data, next: body_next(after) },
    }
}

/// What a call makes of an input, with a buffer of `room` bytes for a part of the body.
pub open spec fn proto_step(proto: Option<Proto>, input: Seq<u8>, room: int) -> Step {
    match proto {
        None => Step::Lost,
        Some(Proto::Await100(call)) => await_step(call, input),
        Some(Proto::RecvResponse(call)) => head_step(call, input),
        Some(Proto::RecvBody(call)) => if input.len() == 0 {
            Step::Idle
        } else {
            body_step(call, input, room)
        },
        Some(_) => Step::Idle,
    }
}

/// The call after that. A head may have `limit` bytes.
pub open spec fn proto_after(
    proto: Option<Proto>,
    input: Seq<u8>,
    room: int,
    limit: usize,
) -> Option<Proto> {
    match proto {
        Some(Proto::Await100(call)) => {
            let (used, after) = continue_read(call.call(), input);
            if used is Err {
                None
            } else if awaiting(after) {
                Some(Proto::Await100(Awaiting::of(after)))
            } else {
                match await_next(after) {
                    AfterAwait::SendBody(call) => Some(Proto::SendBody(call)),
                    AfterAwait::RecvResponse(call) => Some(Proto::RecvResponse(call)),
                    AfterAwait::Failed(_) => None,
                }
            }
        },
        Some(Proto::RecvResponse(call)) => match response_read(call.call(), input) {
            HeadRead::Failed(_) => None,
            HeadRead::Partial(after) => if input.len() > limit {
                None
            } else {
                Some(Proto::RecvResponse(after))
            },
            HeadRead::Whole { used, response, call } => match response_next(call) {
                AfterResponse::RecvBody(call) => Some(Proto::RecvBody(call)),
                AfterResponse::Stuck => None,
                _ => Some(Proto::Done),
            },
        },
        Some(Proto::RecvBody(call)) => if input.len() == 0 {
            proto
        } else {
            let (read, after) = body_read(call, input, room);
            if read is Err {
                None
            } else {
                match body_next(after) {
                    BodyNext::More => Some(Proto::RecvBody(after)),
                    BodyNext::Over(_) => Some(Proto::Done),
                    BodyNext::Stuck => None,
                }
            }
        },
        _ => proto,
    }
}

/// A step takes no more than there is, gives no more of a body than there is room for, and does
/// not get stuck.
pub open spec fn step_fits(step: Step, input: Seq<u8>, room: int) -> bool {
    match step {
        Step::Await { used, next } => 0 <= used <= input.len() && !(next is Failed),
        Step::Head { used, response, next } => 0 <= used <= input.len() && !(next is Stuck),
        Step::Body { used, data, next } => {
            &&& 0 <= used <= input.len()
            &&& data.len() <= room
            &&& !(next is Stuck)
        },
        _ => true,
    }
}

impl DriveView {
    /// Before anything is read.
    pub open spec fn start(exchange: ExchangeView, effects: Seq<EffectView>) -> DriveView {
        DriveView { exchange, effects, job: None, more: true }
    }

    /// Whether a step can be the next one: a call at this stage makes it of the input. No part of
    /// a body is longer than `room`.
    pub open spec fn allows(self, step: Step, room: int) -> bool {
        let x = self.exchange;
        &&& self.more
        &&& exists|proto: Option<Proto>|
            stage_of(proto) == x.proto && step == #[trigger] proto_step(proto, x.input, room)
        &&& step_fits(step, x.input, room)
    }

    /// After one more step. `id` is the exchange's number, and a head may have `limit` bytes.
    pub open spec fn next(self, step: Step, id: u64, limit: usize) -> DriveView {
        let x = self.exchange;
        match step {
            Step::Lost => DriveView { more: false, ..self },
            Step::Await { used, next } => {
                let x = ExchangeView { input: x.input.skip(used), ..x };
                match next {
                    AwaitNext::Keep => DriveView { exchange: x, more: false, ..self },
                    AwaitNext::SendBody => DriveView {
                        exchange: ExchangeView {
                            proto: Some(Stage::SendBody),
                            write_waiter: None,
                            ..x
                        },
                        job: x.write_waiter,
                        more: false,
                        ..self
                    },
                    AwaitNext::RecvResponse => DriveView {
                        exchange: ExchangeView {
                            proto: Some(Stage::RecvResponse),
                            request_finished: true,
                            write_waiter: None,
                            ..x
                        },
                        effects: reply_to(
                            self.effects,
                            waiting_for(x.write_waiter),
                            AnswerView::Failed(HttpErrorView::RequestBodyRejected),
                        ),
                        ..self
                    },
                    AwaitNext::Failed(reason) => DriveView {
                        exchange: x.broken(reason),
                        more: false,
                        ..self
                    },
                }
            },
            Step::AwaitFailed(reason) => DriveView {
                exchange: x.broken(reason),
                more: false,
                ..self
            },
            Step::Head { used, response, next } => {
                let x = ExchangeView { input: x.input.skip(used), ..x };
                let x = match next {
                    HeadNext::Body => ExchangeView { proto: Some(Stage::RecvBody), ..x },
                    HeadNext::Over(reusable) => ExchangeView {
                        proto: Some(Stage::Done),
                        reusable: Some(reusable),
                        body_ended: true,
                        ..x
                    },
                    HeadNext::Stuck => x.broken(stuck()),
                };
                match x.response_waiter {
                    Some(waiting) => DriveView {
                        exchange: ExchangeView {
                            response: None,
                            response_taken: true,
                            response_waiter: None,
                            ..x
                        },
                        effects: reply(
                            self.effects,
                            waiting,
                            AnswerView::Response {
                                response,
                                body: IncomingBody::fresh(
                                    BodySource::Client { exchange: id, source: waiting.source },
                                ),
                            },
                        ),
                        ..self
                    },
                    None => DriveView {
                        exchange: ExchangeView { response: Some(response), ..x },
                        ..self
                    },
                }
            },
            Step::HeadPartial => DriveView {
                exchange: if x.input.len() > limit {
                    x.broken("响应头超过上限"@)
                } else {
                    x
                },
                more: false,
                ..self
            },
            Step::HeadFailed(reason) => DriveView {
                exchange: x.broken(reason),
                more: false,
                ..self
            },
            Step::Body { used, data, next } => {
                let x = ExchangeView {
                    input: x.input.skip(used),
                    chunks: if data.len() > 0 {
                        x.chunks.push(data)
                    } else {
                        x.chunks
                    },
                    ..x
                };
                let x = match next {
                    BodyNext::More => x,
                    BodyNext::Over(reusable) => ExchangeView {
                        proto: Some(Stage::Done),
                        reusable: Some(reusable),
                        body_ended: true,
                        ..x
                    },
                    BodyNext::Stuck => x.broken(stuck()),
                };
                DriveView { exchange: x, more: used > 0 || data.len() > 0, ..self }
            },
            Step::BodyFailed(reason) => DriveView {
                exchange: x.broken(reason),
                more: false,
                ..self
            },
            Step::Idle => DriveView { more: false, ..self },
        }
    }

    /// After several steps.
    pub open spec fn run(self, steps: Seq<Step>, id: u64, limit: usize) -> DriveView
        decreases steps.len(),
    {
        if steps.len() == 0 {
            self
        } else {
            self.run(steps.drop_last(), id, limit).next(steps.last(), id, limit)
        }
    }

    /// Whether each step can follow the ones before.
    pub open spec fn admits(self, steps: Seq<Step>, id: u64, limit: usize, room: int) -> bool
        decreases steps.len(),
    {
        steps.len() > 0 ==> {
            &&& self.admits(steps.drop_last(), id, limit, room)
            &&& self.run(steps.drop_last(), id, limit).allows(steps.last(), room)
        }
    }

    /// Whether the steps go on until nothing more can be read, or for as many turns as can be
    /// counted.
    pub open spec fn ends(self, steps: Seq<Step>, id: u64, limit: usize) -> bool {
        !self.run(steps, id, limit).more || steps.len() == u64::MAX
    }
}

/// Takes bytes off the front.
pub(crate) fn drop_front(input: &mut Vec<u8>, used: usize)
    requires
        used <= old(input)@.len(),
    ensures
        final(input)@ == old(input)@.skip(used as int),
{
    if used > 0 {
        let mut rest: Vec<u8> = Vec::new();
        let mut i: usize = used;
        let ghost before = input@;
        while i < input.len()
            invariant
                used <= i <= input@.len(),
                input@ == before,
                rest@ == before.subrange(used as int, i as int),
            decreases input@.len() - i,
        {
            rest.push(input[i]);
            i += 1;
            assert(rest@ =~= before.subrange(used as int, i as int));
        }
        assert(rest@ =~= before.skip(used as int));
        *input = rest;
    } else {
        assert(input@ =~= input@.skip(0));
    }
}

/// What the protocol made of the input while the server had not said whether it wants the body.
pub enum AwaitOutcome {
    Failed(String),
    Keep { used: usize, call: Awaiting },
    SendBody { used: usize, call: Call<SendBody> },
    RecvResponse { used: usize, call: Receiving },
    Broken { used: usize, reason: String },
}

impl AwaitOutcome {
    /// The step that this is.
    pub open spec fn step(self) -> Step {
        match self {
            AwaitOutcome::Failed(reason) => Step::AwaitFailed(reason@),
            AwaitOutcome::Keep { used, call } => Step::Await {
                used: used as int,
                next: AwaitNext::Keep,
            },
            AwaitOutcome::SendBody { used, call } => Step::Await {
                used: used as int,
                next: AwaitNext::SendBody,
            },
            AwaitOutcome::RecvResponse { used, call } => Step::Await {
                used: used as int,
                next: AwaitNext::RecvResponse,
            },
            AwaitOutcome::Broken { used, reason } => Step::Await {
                used: used as int,
                next: AwaitNext::Failed(reason@),
            },
        }
    }

    /// The call after it.
    pub open spec fn left(self) -> Option<Proto> {
        match self {
            AwaitOutcome::Keep { used, call } => Some(Proto::Await100(call)),
            AwaitOutcome::SendBody { used, call } => Some(Proto::SendBody(call)),
            AwaitOutcome::RecvResponse { used, call } => Some(Proto::RecvResponse(call)),
            _ => None,
        }
    }

    /// Asks the protocol.
    fn consult(call: Awaiting, input: &Vec<u8>) -> (outcome: AwaitOutcome)
        ensures
            forall|room: int, limit: usize|
                outcome.left() == #[trigger] proto_after(
                    Some(Proto::Await100(call)),
                    input@,
                    room,
                    limit,
                ),
            outcome.step() == await_step(call, input@),
            step_fits(outcome.step(), input@, 0),
    {
        let (read, call) = read_100(call, input.as_slice());
        match read {
            Err(reason) => AwaitOutcome::Failed(reason),
            Ok(used) => match Awaiting::check(call) {
                Ok(call) => AwaitOutcome::Keep { used, call },
                Err(call) => match after_await(call) {
                    AfterAwait::SendBody(call) => AwaitOutcome::SendBody { used, call },
                    AfterAwait::RecvResponse(call) => AwaitOutcome::RecvResponse { used, call },
                    AfterAwait::Failed(reason) => AwaitOutcome::Broken { used, reason },
                },
            },
        }
    }
}

/// Where the protocol goes when the response's head has come.
pub enum HeadAfter {
    Body(Call<RecvBody>),
    Over { reusable: bool },
    Stuck,
}

impl HeadAfter {
    /// Where that is.
    pub open spec fn next(self) -> HeadNext {
        match self {
            HeadAfter::Body(call) => HeadNext::Body,
            HeadAfter::Over { reusable } => HeadNext::Over(reusable),
            HeadAfter::Stuck => HeadNext::Stuck,
        }
    }
}

/// What the protocol made of the input while the response's head was awaited.
pub enum HeadOutcome {
    Failed(String),
    Partial(Receiving),
    Whole { used: usize, response: Response<()>, after: HeadAfter },
}

impl HeadOutcome {
    /// The step that this is.
    pub open spec fn step(self) -> Step {
        match self {
            HeadOutcome::Failed(reason) => Step::HeadFailed(reason@),
            HeadOutcome::Partial(call) => Step::HeadPartial,
            HeadOutcome::Whole { used, response, after } => Step::Head {
                used: used as int,
                response,
                next: after.next(),
            },
        }
    }

    /// The call after it, with so many bytes of input. A head may have `limit` bytes.
    pub open spec fn left(self, size: int, limit: usize) -> Option<Proto> {
        match self {
            HeadOutcome::Failed(_) => None,
            HeadOutcome::Partial(call) => if size > limit {
                None
            } else {
                Some(Proto::RecvResponse(call))
            },
            HeadOutcome::Whole { used, response, after } => match after {
                HeadAfter::Body(call) => Some(Proto::RecvBody(call)),
                HeadAfter::Over { reusable } => Some(Proto::Done),
                HeadAfter::Stuck => None,
            },
        }
    }

    /// Asks the protocol.
    fn consult(call: Receiving, input: &Vec<u8>) -> (outcome: HeadOutcome)
        ensures
            forall|room: int, limit: usize|
                outcome.left(input@.len() as int, limit) == #[trigger] proto_after(
                    Some(Proto::RecvResponse(call)),
                    input@,
                    room,
                    limit,
                ),
            outcome.step() == head_step(call, input@),
            step_fits(outcome.step(), input@, 0),
    {
        match read_head(call, input.as_slice()) {
            HeadRead::Failed(reason) => HeadOutcome::Failed(reason),
            HeadRead::Partial(call) => HeadOutcome::Partial(call),
            HeadRead::Whole { used, response, call } => {
                let after = match after_response(call) {
                    AfterResponse::RecvBody(call) => HeadAfter::Body(call),
                    AfterResponse::Redirect(call) => {
                        let call = after_redirect(call);
                        HeadAfter::Over { reusable: !must_close(&call) }
                    },
                    AfterResponse::Cleanup(call) => {
                        HeadAfter::Over { reusable: !must_close(&call) }
                    },
                    AfterResponse::Stuck => HeadAfter::Stuck,
                };
                HeadOutcome::Whole { used, response, after }
            },
        }
    }
}

/// Where the protocol goes after a part of the response's body.
pub enum BodyAfter {
    More(Call<RecvBody>),
    Over { reusable: bool },
    Stuck,
}

impl BodyAfter {
    /// Where that is.
    pub open spec fn next(self) -> BodyNext {
        match self {
            BodyAfter::More(call) => BodyNext::More,
            BodyAfter::Over { reusable } => BodyNext::Over(reusable),
            BodyAfter::Stuck => BodyNext::Stuck,
        }
    }
}

/// What the protocol made of the input while the response's body was received.
pub enum BodyOutcome {
    Failed(String),
    Read { used: usize, data: Vec<u8>, after: BodyAfter },
}

impl BodyOutcome {
    /// The step that this is.
    pub open spec fn step(self) -> Step {
        match self {
            BodyOutcome::Failed(reason) => Step::BodyFailed(reason@),
            BodyOutcome::Read { used, data, after } => Step::Body {
                used: used as int,
                data: data@,
                next: after.next(),
            },
        }
    }

    /// The call after it.
    pub open spec fn left(self) -> Option<Proto> {
        match self {
            BodyOutcome::Failed(_) => None,
            BodyOutcome::Read { used, data, after } => match after {
                BodyAfter::More(call) => Some(Proto::RecvBody(call)),
                BodyAfter::Over { reusable } => Some(Proto::Done),
                BodyAfter::Stuck => None,
            },
        }
    }

    /// Asks the protocol. A body that lasts until the connection closes does not end here.
    fn consult(call: Call<RecvBody>, input: &Vec<u8>, room: usize) -> (outcome: BodyOutcome)
        requires
            input@.len() > 0,
        ensures
            forall|limit: usize|
                outcome.left() == #[trigger] proto_after(
                    Some(Proto::RecvBody(call)),
                    input@,
                    room as int,
                    limit,
                ),
            outcome.step() == body_step(call, input@, room as int),
            step_fits(outcome.step(), input@, room as int),
    {
        let mut call = call;
        match read_body(&mut call, input.as_slice(), room) {
            BodyRead::Failed(reason) => BodyOutcome::Failed(reason),
            BodyRead::Read { used, data } => {
                let after = if body_may_end(&call) && !until_close(&call) {
                    match after_recv_body(call) {
                        AfterRecvBody::Redirect(call) => {
                            let call = after_redirect(call);
                            BodyAfter::Over { reusable: !must_close(&call) }
                        },
                        AfterRecvBody::Cleanup(call) => {
                            BodyAfter::Over { reusable: !must_close(&call) }
                        },
                        AfterRecvBody::Stuck => BodyAfter::Stuck,
                    }
                } else {
                    BodyAfter::More(call)
                };
                BodyOutcome::Read { used, data, after }
            },
        }
    }
}

/// What one step of reading leaves.
pub struct StepDone {
    pub more: bool,
    pub job: Option<QueuedChunk>,
}

impl ExchangeView {
    /// The exchange with its call at a stage.
    pub open spec fn at(self, stage: Stage) -> ExchangeView {
        ExchangeView { proto: Some(stage), ..self }
    }
}

/// An exchange that is read, and its call, after so many steps. What each step is follows from
/// the call.
pub open spec fn driven(
    start: DriveView,
    proto: Option<Proto>,
    id: u64,
    limit: usize,
    room: int,
    turns: nat,
) -> (DriveView, Option<Proto>)
    decreases turns,
{
    if turns == 0 {
        (start, proto)
    } else {
        let (view, call) = driven(start, proto, id, limit, room, (turns - 1) as nat);
        let input = view.exchange.input;
        (
            view.next(proto_step(call, input, room), id, limit),
            proto_after(call, input, room, limit),
        )
    }
}

impl Exchange {
    /// The exchange, what is to be done, and a chunk that can be sent now, after reading.
    pub open spec fn drive_view(
        exchange: Exchange,
        output: ClientOutput,
        done: StepDone,
    ) -> DriveView {
        DriveView {
            exchange: exchange@,
            effects: output@,
            job: queued(done.job),
            more: done.more,
        }
    }

    /// Breaks the exchange.
    fn break_off(&mut self, reason: String)
        requires
            old(self).proto is None,
        ensures
            final(self)@ == old(self)@.broken(reason@),
    {
        self.error = Some(reason);
        assert(self@ =~= old(self)@.broken(reason@));
    }

    /// Goes on after the protocol was asked whether the server wants the body. The call was taken
    /// out of the exchange for that.
    pub fn awaited(&mut self, outcome: AwaitOutcome, output: &mut ClientOutput) -> (done: StepDone)
        requires
            old(self).proto is None,
            outcome.step() matches Step::Await { used, next } ==> used <= old(self)@.input.len(),
        ensures
            final(self).proto == outcome.left(),
            forall|id: u64, limit: usize|
                Exchange::drive_view(*final(self), *final(output), done) == #[trigger] DriveView::start(
                    old(self)@.at(Stage::Await100),
                    old(output)@,
                ).next(outcome.step(), id, limit),
    {
        match outcome {
            AwaitOutcome::Failed(reason) => {
                self.break_off(reason);
                StepDone { more: false, job: None }
            },
            AwaitOutcome::Keep { used, call } => {
                drop_front(&mut self.input, used);
                self.proto = Some(Proto::Await100(call));
                StepDone { more: false, job: None }
            },
            AwaitOutcome::SendBody { used, call } => {
                drop_front(&mut self.input, used);
                self.proto = Some(Proto::SendBody(call));
                let job = self.write_waiter.take();
                StepDone { more: false, job }
            },
            AwaitOutcome::RecvResponse { used, call } => {
                drop_front(&mut self.input, used);
                self.request_finished = true;
                self.proto = Some(Proto::RecvResponse(call));
                if let Some(waiting) = self.write_waiter.take() {
                    output.reply(
                        waiting.pending,
                        Answer::Failed(HttpError::RequestBodyRejected),
                    );
                }
                StepDone { more: true, job: None }
            },
            AwaitOutcome::Broken { used, reason } => {
                drop_front(&mut self.input, used);
                self.break_off(reason);
                StepDone { more: false, job: None }
            },
        }
    }

    /// Goes on after the protocol was asked for the response's head. The call was taken out of
    /// the exchange for that.
    pub fn head_came(
        &mut self,
        outcome: HeadOutcome,
        id: u64,
        limit: usize,
        output: &mut ClientOutput,
    ) -> (done: StepDone)
        requires
            old(self).proto is None,
            outcome.step() matches Step::Head { used, response, next } ==> used <= old(self)@.input.len(),
        ensures
            final(self).proto == outcome.left(old(self)@.input.len() as int, limit),
            Exchange::drive_view(*final(self), *final(output), done) == DriveView::start(
                old(self)@.at(Stage::RecvResponse),
                old(output)@,
            ).next(outcome.step(), id, limit),
    {
        match outcome {
            HeadOutcome::Failed(reason) => {
                self.break_off(reason);
                StepDone { more: false, job: None }
            },
            HeadOutcome::Partial(call) => {
                if self.input.len() > limit {
                    self.break_off("响应头超过上限".to_owned());
                } else {
                    self.proto = Some(Proto::RecvResponse(call));
                }
                StepDone { more: false, job: None }
            },
            HeadOutcome::Whole { used, response, after } => {
                drop_front(&mut self.input, used);
                match after {
                    HeadAfter::Body(call) => {
                        self.proto = Some(Proto::RecvBody(call));
                    },
                    HeadAfter::Over { reusable } => {
                        self.reusable = Some(reusable);
                        self.proto = Some(Proto::Done);
                        self.body_ended = true;
                    },
                    HeadAfter::Stuck => {
                        self.break_off("响应状态无法推进".to_owned());
                    },
                }
                match self.response_waiter {
                    Some(waiting) => {
                        self.response_waiter = None;
                        self.response_taken = true;
                        self.response = None;
                        let body = IncomingBody::client(id, waiting.source);
                        output.reply(waiting, Answer::Response { response, body });
                    },
                    None => {
                        self.response = Some(response);
                    },
                }
                StepDone { more: true, job: None }
            },
        }
    }

    /// Goes on after the protocol was asked for a part of the response's body. The call was taken
    /// out of the exchange for that.
    pub fn body_came(&mut self, outcome: BodyOutcome, output: &mut ClientOutput) -> (done: StepDone)
        requires
            old(self).proto is None,
            outcome.step() matches Step::Body { used, data, next } ==> used <= old(self)@.input.len(),
        ensures
            final(self).proto == outcome.left(),
            forall|id: u64, limit: usize|
                Exchange::drive_view(*final(self), *final(output), done) == #[trigger] DriveView::start(
                    old(self)@.at(Stage::RecvBody),
                    old(output)@,
                ).next(outcome.step(), id, limit),
    {
        match outcome {
            BodyOutcome::Failed(reason) => {
                self.break_off(reason);
                StepDone { more: false, job: None }
            },
            BodyOutcome::Read { used, data, after } => {
                let more = used > 0 || data.len() > 0;
                drop_front(&mut self.input, used);
                if data.len() > 0 {
                    self.chunks.push_back(data);
                    assert(self@.chunks =~= old(self)@.chunks.push(data@));
                }
                match after {
                    BodyAfter::More(call) => {
                        self.proto = Some(Proto::RecvBody(call));
                    },
                    BodyAfter::Over { reusable } => {
                        self.reusable = Some(reusable);
                        self.proto = Some(Proto::Done);
                        self.body_ended = true;
                    },
                    BodyAfter::Stuck => {
                        self.break_off("响应状态无法推进".to_owned());
                    },
                }
                StepDone { more, job: None }
            },
        }
    }

    /// Reads on by one step.
    fn drive_step(
        &mut self,
        id: u64,
        limit: usize,
        room: usize,
        output: &mut ClientOutput,
    ) -> (done: StepDone)
        ensures
            final(self).proto == proto_after(old(self).proto, old(self)@.input, room as int, limit),
            ({
                let step = proto_step(old(self).proto, old(self)@.input, room as int);
                let start = DriveView::start(old(self)@, old(output)@);
                &&& start.allows(step, room as int)
                &&& Exchange::drive_view(*final(self), *final(output), done) == start.next(
                    step,
                    id,
                    limit,
                )
            }),
    {
        let ghost start = DriveView::start(self@, output@);
        match self.proto.take() {
            None => {
                let done = StepDone { more: false, job: None };
                assert(start.allows(Step::Lost, room as int));
                assert(Exchange::drive_view(*self, *output, done) =~= start.next(
                    Step::Lost,
                    id,
                    limit,
                ));
                done
            },
            Some(Proto::Await100(call)) => {
                let outcome = AwaitOutcome::consult(call, &self.input);
                let ghost step = outcome.step();
                assert(self@.at(Stage::Await100) =~= start.exchange);
                let done = self.awaited(outcome, output);
                assert(start.allows(step, room as int));
                assert(Exchange::drive_view(*self, *output, done) == start.next(step, id, limit));
                done
            },
            Some(Proto::RecvResponse(call)) => {
                let outcome = HeadOutcome::consult(call, &self.input);
                let ghost step = outcome.step();
                assert(self@.at(Stage::RecvResponse) =~= start.exchange);
                let done = self.head_came(outcome, id, limit, output);
                assert(start.allows(step, room as int));
                assert(Exchange::drive_view(*self, *output, done) == start.next(step, id, limit));
                done
            },
            Some(Proto::RecvBody(call)) => {
                if self.input.len() == 0 {
                    self.proto = Some(Proto::RecvBody(call));
                    let done = StepDone { more: false, job: None };
                    assert(start.allows(Step::Idle, room as int));
                    assert(Exchange::drive_view(*self, *output, done) =~= start.next(
                        Step::Idle,
                        id,
                        limit,
                    ));
                    return done;
                }
                let outcome = BodyOutcome::consult(call, &self.input, room);
                let ghost step = outcome.step();
                assert(self@.at(Stage::RecvBody) =~= start.exchange);
                let done = self.body_came(outcome, output);
                assert(start.allows(step, room as int));
                assert(Exchange::drive_view(*self, *output, done) == start.next(step, id, limit));
                done
            },
            Some(other) => {
                self.proto = Some(other);
                let done = StepDone { more: false, job: None };
                assert(start.allows(Step::Idle, room as int));
                assert(Exchange::drive_view(*self, *output, done) =~= start.next(
                    Step::Idle,
                    id,
                    limit,
                ));
                done
            },
        }
    }

    /// Reads what came in as far as it goes. A chunk that waited for leave may be handed back,
    /// to be sent now.
    pub fn drive(
        &mut self,
        id: u64,
        limit: usize,
        room: usize,
        output: &mut ClientOutput,
    ) -> (done: StepDone)
        ensures
            exists|steps: Seq<Step>|
                {
                    &&& DriveView::start(old(self)@, old(output)@).admits(
                        steps,
                        id,
                        limit,
                        room as int,
                    )
                    &&& DriveView::start(old(self)@, old(output)@).ends(steps, id, limit)
                    &&& Exchange::drive_view(*final(self), *final(output), done)
                        == #[trigger] DriveView::start(old(self)@, old(output)@).run(
                        steps,
                        id,
                        limit,
                    )
                    &&& (Exchange::drive_view(*final(self), *final(output), done), final(self).proto)
                        == driven(
                        DriveView::start(old(self)@, old(output)@),
                        old(self).proto,
                        id,
                        limit,
                        room as int,
                        steps.len(),
                    )
                },
    {
        let ghost start = DriveView::start(self@, output@);
        let ghost proto = self.proto;
        let ghost mut steps: Seq<Step> = Seq::empty();
        let mut done = StepDone { more: true, job: None };
        let mut turns: u64 = u64::MAX;
        assert(Exchange::drive_view(*self, *output, done) =~= start);
        while done.more && turns > 0
            invariant
                steps.len() + turns == u64::MAX,
                start.admits(steps, id, limit, room as int),
                done.more ==> done.job is None,
                Exchange::drive_view(*self, *output, done) == start.run(steps, id, limit),
                (Exchange::drive_view(*self, *output, done), self.proto) == driven(
                    start,
                    proto,
                    id,
                    limit,
                    room as int,
                    steps.len(),
                ),
            decreases turns,
        {
            let ghost before = Exchange::drive_view(*self, *output, done);
            assert(before =~= DriveView::start(self@, output@));
            let ghost step = proto_step(self.proto, self@.input, room as int);
            done = self.drive_step(id, limit, room, output);
            turns -= 1;
            proof {
                let longer = steps.push(step);
                assert(longer.drop_last() =~= steps);
                steps = longer;
            }
        }
        assert(start.ends(steps, id, limit));
        done
    }
}

} // verus!
