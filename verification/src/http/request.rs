//! How a request is sent.

use crate::http::call::{
    after_await, after_body, after_head, body_written, head_written, is_addressed, write_body,
    write_head,
    AfterAwait, AfterHead, BodyWrite, Draft, Proto, Receiving,
};
#[allow(unused_imports)]
use crate::http::call::{
    addressed, await_next, begun, body_whole, body_write, call_for, head_bytes, head_whole, head_write, send_body_next,
    send_request_next, RequestView, Stage,
};
use crate::http::effect::{Answer, ClientOutput};
#[allow(unused_imports)]
use crate::http::effect::{reply, reply_to, AnswerView, EffectView};
use crate::http::error::HttpError;
#[allow(unused_imports)]
use crate::http::error::{over_limit, HttpErrorView};
use crate::http::exchange::{Exchange, QueuedChunk};
#[allow(unused_imports)]
use crate::http::exchange::{queued, waiting_for, ExchangeView};
use crate::http::transport::TransportId;
use crate::net::socket::Pending;
use ureq_proto::client::state::{SendBody, SendRequest};
use ureq_proto::client::Call;
use vstd::prelude::*;

verus! {

/// A head with one more part, as long as it stays within `limit` bytes and the part brings it on;
/// `stalled` is what is said of one that does not.
pub open spec fn head_with(
    head: Seq<u8>,
    part: Seq<u8>,
    limit: usize,
    stalled: Seq<char>,
) -> Result<Seq<u8>, HttpErrorView> {
    if part.len() == 0 {
        Err(HttpErrorView::Protocol(stalled))
    } else if head.len() + part.len() > limit {
        Err(over_limit((head.len() + part.len()) as int, limit))
    } else {
        Ok(head + part)
    }
}

/// How large the buffer for the next part of a head is: what is left of the limit, and never
/// nothing.
pub fn head_room(head: &Vec<u8>, limit: usize) -> (room: usize)
    ensures
        room == room_for(head@, limit),
{
    if head.len() < limit {
        limit - head.len()
    } else {
        1
    }
}

/// Adds a part to a head.
pub fn push_head(head: &mut Vec<u8>, part: &Vec<u8>, limit: usize, stalled: &str) -> (result:
    Result<(), HttpError>)
    requires
        old(head)@.len() <= limit,
    ensures
        match head_with(old(head)@, part@, limit, stalled@) {
            Ok(longer) => result is Ok && final(head)@ == longer,
            Err(expected) => {
                &&& result matches Err(error) && error@ == expected
                &&& final(head)@ == old(head)@
            },
        },
{
    if part.len() == 0 {
        return Err(HttpError::Protocol(stalled.to_owned()));
    }
    if part.len() > limit - head.len() {
        let actual: usize = head.len().saturating_add(part.len());
        return Err(HttpError::BackpressureLimit { actual, limit });
    }
    head.extend_from_slice(part.as_slice());
    assert(head@ =~= old(head)@ + part@);
    Ok(())
}

/// What is said of a head that does not get on.
pub open spec fn head_stalled() -> Seq<char> {
    "序列化请求头没有进展"@
}

/// How large the buffer for the next part of a head is.
pub open spec fn room_for(head: Seq<u8>, limit: usize) -> int {
    if head.len() < limit {
        limit - head.len()
    } else {
        1
    }
}

/// The head that a call writes in at most so many turns, behind what is there already, and the
/// call after that; or why it cannot be written. A head may have `limit` bytes.
pub open spec fn head_run(call: Call<SendRequest>, head: Seq<u8>, limit: usize, turns: nat) -> Result<
    (Seq<u8>, Call<SendRequest>),
    HttpErrorView,
>
    decreases turns,
{
    if turns == 0 || head_whole(call) {
        Ok((head, call))
    } else {
        let (part, after) = head_write(call, room_for(head, limit));
        match part {
            Err(reason) => Err(HttpErrorView::Protocol(reason)),
            Ok(part) => match head_with(head, part, limit, head_stalled()) {
                Err(error) => Err(error),
                Ok(longer) => head_run(after, longer, limit, (turns - 1) as nat),
            },
        }
    }
}

/// The head that a call writes, and how the protocol goes on; or why it cannot be written. A head
/// may have `limit` bytes. A CONNECT without an authority has no head.
pub open spec fn written_out(call: Call<SendRequest>, limit: usize) -> Result<
    (Seq<u8>, Proto),
    HttpErrorView,
> {
    if !addressed(call) {
        Err(HttpErrorView::Protocol("CONNECT 请求缺少 authority"@))
    } else {
        match head_run(call, Seq::empty(), limit, u64::MAX as nat) {
            Err(error) => Err(error),
            Ok((head, after)) => match send_request_next(after) {
                AfterHead::Await100(call) => Ok((head, Proto::Await100(call))),
                AfterHead::SendBody(call) => Ok((head, Proto::SendBody(call))),
                AfterHead::RecvResponse(call) => Ok((head, Proto::RecvResponse(call))),
                AfterHead::Stuck => Err(HttpErrorView::Protocol("请求头状态无法推进"@)),
                AfterHead::Failed(reason) => Err(HttpErrorView::Protocol(reason@)),
            },
        }
    }
}

/// The head that is written for a request, and the stage that follows.
pub open spec fn head_for(of: RequestView, limit: usize) -> Result<(Seq<u8>, Stage), HttpErrorView> {
    head_written_out(begun(call_for(of.method, of.uri, of.headers)), limit)
}

/// The head that a call writes, and the stage that follows.
pub open spec fn head_written_out(call: Call<SendRequest>, limit: usize) -> Result<
    (Seq<u8>, Stage),
    HttpErrorView,
> {
    match written_out(call, limit) {
        Ok((head, proto)) => Ok((head, proto@)),
        Err(error) => Err(error),
    }
}

/// What a serialized head and the call behind it say.
pub open spec fn out_view(result: Result<(Vec<u8>, Proto), HttpError>) -> Result<
    (Seq<u8>, Proto),
    HttpErrorView,
> {
    match result {
        Ok((bytes, proto)) => Ok((bytes@, proto)),
        Err(error) => Err(error@),
    }
}

/// What a serialized head says.
pub open spec fn head_view(result: Result<(Vec<u8>, Proto), HttpError>) -> Result<
    (Seq<u8>, Stage),
    HttpErrorView,
> {
    match result {
        Ok((bytes, proto)) => Ok((bytes@, proto@)),
        Err(error) => Err(error@),
    }
}

/// Goes on when a head is written.
pub fn head_ended(head: Vec<u8>, next: AfterHead) -> (result: Result<(Vec<u8>, Proto), HttpError>)
    ensures
        out_view(result) == match next {
            AfterHead::Await100(call) => Ok((head@, Proto::Await100(call))),
            AfterHead::SendBody(call) => Ok((head@, Proto::SendBody(call))),
            AfterHead::RecvResponse(call) => Ok((head@, Proto::RecvResponse(call))),
            AfterHead::Stuck => Err(HttpErrorView::Protocol("请求头状态无法推进"@)),
            AfterHead::Failed(reason) => Err(HttpErrorView::Protocol(reason@)),
        },
{
    match next {
        AfterHead::Await100(call) => Ok((head, Proto::Await100(call))),
        AfterHead::SendBody(call) => Ok((head, Proto::SendBody(call))),
        AfterHead::RecvResponse(call) => Ok((head, Proto::RecvResponse(call))),
        AfterHead::Stuck => Err(HttpError::Protocol("请求头状态无法推进".to_owned())),
        AfterHead::Failed(reason) => Err(HttpError::Protocol(reason)),
    }
}

/// A head that was written is that of the request, where that is known.
pub open spec fn head_fits(head: Result<(Seq<u8>, Stage), HttpErrorView>, of: Option<RequestView>) -> bool {
    head matches Ok((data, stage)) ==> (of matches Some(of) ==> data == head_bytes(
        of.method,
        of.uri,
        of.headers,
    ))
}

/// Writes the head of a request, which may have `limit` bytes.
pub fn serialize_request(call: Call<SendRequest>, limit: usize) -> (result: Result<
    (Vec<u8>, Proto),
    HttpError,
>)
    ensures
        out_view(result) == written_out(call, limit),
        result matches Ok((bytes, proto)) ==> bytes@.len() <= limit,
{
    write_out(Draft::unknown(call), limit)
}

/// Writes the head of a draft, which may have `limit` bytes. Where nothing of it was written
/// before, it is the head of the draft's request.
pub fn write_out(draft: Draft<SendRequest>, limit: usize) -> (result: Result<
    (Vec<u8>, Proto),
    HttpError,
>)
    ensures
        out_view(result) == written_out(draft.call(), limit),
        result matches Ok((bytes, proto)) ==> bytes@.len() <= limit,
        draft.written().len() == 0 ==> head_fits(head_view(result), draft.of()),
{
    if !is_addressed(&draft) {
        return Err(HttpError::Protocol("CONNECT 请求缺少 authority".to_owned()));
    }
    let mut work = draft;
    let ghost of = work.of();
    let ghost earlier = work.written();
    let mut head: Vec<u8> = Vec::new();
    let mut turns: u64 = u64::MAX;
    let mut done = head_written(&work);
    let ghost out = head_run(draft.call(), Seq::empty(), limit, u64::MAX as nat);
    assert(earlier + head@ =~= earlier);
    assert(head@ =~= Seq::empty());
    while turns > 0 && !done
        invariant
            head@.len() <= limit,
            work.of() == of,
            work.written() == earlier + head@,
            done == head_whole(work.call()),
            addressed(draft.call()),
            addressed(work.call()),
            done ==> (of matches Some(of) ==> work.written() == head_bytes(
                of.method,
                of.uri,
                of.headers,
            )),
            out == head_run(draft.call(), Seq::empty(), limit, u64::MAX as nat),
            out == head_run(work.call(), head@, limit, turns as nat),
        decreases turns,
    {
        turns -= 1;
        let room: usize = head_room(&head, limit);
        let ghost before = head@;
        match write_head(&mut work, room) {
            Err(reason) => {
                return Err(HttpError::Protocol(reason));
            },
            Ok(part) => {
                match push_head(&mut head, &part, limit, "序列化请求头没有进展") {
                    Err(error) => {
                        return Err(error);
                    },
                    Ok(()) => {},
                }
                assert(earlier + before + part@ =~= earlier + head@);
                done = head_written(&work);
            },
        }
    }
    let next = after_head(work);
    proof {
        if earlier.len() == 0 {
            assert(earlier + head@ =~= head@);
        }
    }
    head_ended(head, next)
}

/// What sending a part of a request leads to.
pub enum Wire {
    /// An answer, at once.
    Answer(Answer),
    /// Bytes to send, and an answer when that is done.
    Send { transport: TransportId, data: Vec<u8> },
}

/// What a [`Wire`] says.
#[verifier::ext_equal]
pub enum WireView {
    Answer(AnswerView),
    Send { transport: TransportId, data: Seq<u8> },
}

impl View for Wire {
    type V = WireView;

    open spec fn view(&self) -> WireView {
        match *self {
            Wire::Answer(answer) => WireView::Answer(answer@),
            Wire::Send { transport, data } => WireView::Send { transport, data: data@ },
        }
    }
}

/// A failure, as what sending leads to.
pub open spec fn failure(error: HttpErrorView) -> WireView {
    WireView::Answer(AnswerView::Failed(error))
}

/// What is answered when the bytes were sent, or could not be.
pub fn sent(result: Result<(), HttpError>) -> (answer: Answer)
    ensures
        answer@ == match result {
            Ok(()) => AnswerView::Done,
            Err(error) => AnswerView::Failed(error@),
        },
{
    match result {
        Ok(()) => Answer::Done,
        Err(error) => Answer::Failed(error),
    }
}

/// What the protocol made of a chunk: how many of its bytes it took and what to send for them, or
/// why it took none.
#[verifier::ext_equal]
pub enum WriteNote {
    Wrote { used: int, data: Seq<u8> },
    Failed(Seq<char>),
}

/// What a result of writing says.
pub open spec fn write_note(result: BodyWrite) -> WriteNote {
    match result {
        BodyWrite::Wrote { used, data } => WriteNote::Wrote { used: used as int, data: data@ },
        BodyWrite::Failed(reason) => WriteNote::Failed(reason@),
    }
}

/// How large the buffer for a chunk of a body is.
pub open spec fn body_room(size: int) -> int {
    if size + 32 > usize::MAX {
        usize::MAX as int
    } else if size < 32 {
        64
    } else {
        size + 32
    }
}

/// What a call makes of a chunk.
pub open spec fn chunk_note(call: Call<SendBody>, chunk: Seq<u8>) -> WriteNote {
    match body_write(call, chunk, body_room(chunk.len() as int)).0 {
        Ok((used, data)) => WriteNote::Wrote { used, data },
        Err(reason) => WriteNote::Failed(reason),
    }
}

/// The call after that.
pub open spec fn chunk_left(call: Call<SendBody>, chunk: Seq<u8>) -> Call<SendBody> {
    body_write(call, chunk, body_room(chunk.len() as int)).1
}

/// What a call can make of a chunk.
pub open spec fn may_write(chunk: Seq<u8>, note: WriteNote) -> bool {
    &&& exists|call: Call<SendBody>| note == #[trigger] chunk_note(call, chunk)
    &&& note matches WriteNote::Wrote { used, data } ==> 0 <= used <= chunk.len() && data.len()
        <= body_room(chunk.len() as int)
}

/// A count with more added, or the largest that there is.
pub open spec fn capped_sum(count: u64, more: int) -> u64 {
    if count + more > u64::MAX {
        u64::MAX
    } else {
        (count + more) as u64
    }
}

impl ExchangeView {
    /// Why no chunk can be written now.
    pub open spec fn write_obstacle(self) -> Option<HttpErrorView> {
        if self.request_finished {
            Some(HttpErrorView::BodyClosed)
        } else if self.proto == Some(Stage::SendBody) {
            None
        } else if self.response is Some {
            Some(HttpErrorView::RequestBodyRejected)
        } else {
            Some(HttpErrorView::InvalidState("请求体尚不可写"@))
        }
    }

    /// What writing a chunk of so many bytes leads to.
    pub open spec fn write_result(self, size: int, note: WriteNote) -> WireView {
        match note {
            WriteNote::Wrote { used, data } => if used == size {
                WireView::Send { transport: self.transport, data }
            } else {
                failure(HttpErrorView::Protocol("请求体没有完整编码"@))
            },
            WriteNote::Failed(reason) => failure(HttpErrorView::Protocol(reason)),
        }
    }

    /// The exchange after that.
    pub open spec fn after_write(self, size: int, note: WriteNote) -> ExchangeView {
        match note {
            WriteNote::Wrote { used, data } if used == size => ExchangeView {
                request_written: capped_sum(self.request_written, used),
                ..self
            },
            _ => self,
        }
    }
}

impl Exchange {
    /// Takes note of what the protocol made of a chunk of `size` bytes.
    pub fn wrote(&mut self, size: usize, result: BodyWrite) -> (wire: Wire)
        ensures
            final(self)@ == old(self)@.after_write(size as int, write_note(result)),
            final(self).proto == old(self).proto,
            wire@ == old(self)@.write_result(size as int, write_note(result)),
    {
        match result {
            BodyWrite::Wrote { used, data } => {
                if used == size {
                    self.request_written = self.request_written.saturating_add(used as u64);
                    assert(self@ =~= old(self)@.after_write(size as int, write_note(result)));
                    Wire::Send { transport: self.transport, data }
                } else {
                    Wire::Answer(
                        Answer::Failed(HttpError::Protocol("请求体没有完整编码".to_owned())),
                    )
                }
            },
            BodyWrite::Failed(reason) => Wire::Answer(Answer::Failed(HttpError::Protocol(reason))),
        }
    }

    /// Writes a chunk of the request's body.
    pub fn write(&mut self, chunk: &Vec<u8>) -> (wire: Wire)
        ensures
            match old(self)@.write_obstacle() {
                Some(error) => wire@ == failure(error) && final(self)@ == old(self)@
                    && final(self).proto == old(self).proto,
                None => ({
                    let call = old(self).proto->0->SendBody_0;
                    let note = chunk_note(call, chunk@);
                    &&& may_write(chunk@, note)
                    &&& wire@ == old(self)@.write_result(chunk@.len() as int, note)
                    &&& final(self)@ == old(self)@.after_write(chunk@.len() as int, note)
                    &&& final(self).proto == Some(Proto::SendBody(chunk_left(call, chunk@)))
                }),
            },
    {
        if self.request_finished {
            return Wire::Answer(Answer::Failed(HttpError::BodyClosed));
        }
        let ghost before = self@;
        match self.proto.take() {
            Some(Proto::SendBody(call)) => {
                let mut call = call;
                let mut room: usize = chunk.len().saturating_add(32);
                if room < 64 {
                    room = 64;
                }
                let result = write_body(&mut call, chunk.as_slice(), room);
                let ghost note = write_note(result);
                assert(note == chunk_note(old(self).proto->0->SendBody_0, chunk@));
                self.proto = Some(Proto::SendBody(call));
                assert(self@ =~= before);
                let wire = self.wrote(chunk.len(), result);
                assert(wire@ == before.write_result(chunk@.len() as int, note));
                wire
            },
            other => {
                self.proto = other;
                assert(self@ =~= before);
                Wire::Answer(
                    Answer::Failed(
                        if self.response.is_some() {
                            HttpError::RequestBodyRejected
                        } else {
                            HttpError::InvalidState("请求体尚不可写")
                        },
                    ),
                )
            },
        }
    }
}

/// What the protocol made of the end of a request's body.
#[verifier::ext_equal]
pub enum FinishNote {
    /// The body is whole; these bytes end it.
    Over(Seq<u8>),
    /// It is not whole.
    More,
    /// The protocol goes nowhere from there.
    Lost,
    Failed(Seq<char>),
}

/// What a call makes of the end of a request's body, which is a chunk of no bytes.
pub open spec fn finish_note(call: Call<SendBody>) -> FinishNote {
    let (result, after) = body_write(call, Seq::empty(), 64);
    match result {
        Err(reason) => FinishNote::Failed(reason),
        Ok((used, data)) => if body_whole(after) {
            FinishNote::Over(data)
        } else {
            FinishNote::More
        },
    }
}

/// The call after that.
pub open spec fn finish_left(call: Call<SendBody>) -> Option<Proto> {
    let (result, after) = body_write(call, Seq::empty(), 64);
    if result is Ok && body_whole(after) {
        Some(Proto::RecvResponse(send_body_next(after)->0))
    } else {
        Some(Proto::SendBody(after))
    }
}

/// What a call can make of the end of a request's body.
pub open spec fn may_finish(note: FinishNote) -> bool {
    exists|call: Call<SendBody>| note == #[trigger] finish_note(call)
}

/// What the protocol made of the end of a request's body.
pub enum FinishOutcome {
    Over { data: Vec<u8>, call: Receiving },
    More(Call<SendBody>),
    Lost,
    Failed { reason: String, call: Call<SendBody> },
}

impl FinishOutcome {
    /// What it says.
    pub open spec fn note(self) -> FinishNote {
        match self {
            FinishOutcome::Over { data, call } => FinishNote::Over(data@),
            FinishOutcome::More(_) => FinishNote::More,
            FinishOutcome::Lost => FinishNote::Lost,
            FinishOutcome::Failed { reason, call } => FinishNote::Failed(reason@),
        }
    }

    /// The call after it.
    pub open spec fn left(self) -> Option<Proto> {
        match self {
            FinishOutcome::Over { data, call } => Some(Proto::RecvResponse(call)),
            FinishOutcome::More(call) => Some(Proto::SendBody(call)),
            FinishOutcome::Lost => None,
            FinishOutcome::Failed { reason, call } => Some(Proto::SendBody(call)),
        }
    }

    /// Asks the protocol.
    fn consult(call: Call<SendBody>) -> (outcome: FinishOutcome)
        ensures
            outcome.note() == finish_note(call),
            outcome.left() == finish_left(call),
    {
        let mut call = call;
        let nothing: Vec<u8> = Vec::new();
        assert(nothing@ =~= Seq::empty());
        match write_body(&mut call, nothing.as_slice(), 64) {
            BodyWrite::Wrote { used, data } => {
                if body_written(&call) {
                    match after_body(call) {
                        Some(call) => FinishOutcome::Over { data, call },
                        None => FinishOutcome::Lost,
                    }
                } else {
                    FinishOutcome::More(call)
                }
            },
            BodyWrite::Failed(reason) => FinishOutcome::Failed { reason, call },
        }
    }
}

impl ExchangeView {
    /// What finishing the request leads to without the protocol being asked.
    pub open spec fn finish_answer(self) -> Option<AnswerView> {
        if self.request_finished {
            Some(AnswerView::Done)
        } else if self.request_expected is Some && self.request_expected->0
            != self.request_written {
            Some(
                AnswerView::Failed(
                    HttpErrorView::BodyLengthMismatch {
                        expected: self.request_expected->0,
                        actual: self.request_written,
                    },
                ),
            )
        } else {
            match self.proto {
                None => Some(AnswerView::Failed(HttpErrorView::InvalidState("请求状态丢失"@))),
                Some(Stage::SendBody) => None,
                Some(Stage::Await100) => Some(
                    AnswerView::Failed(HttpErrorView::InvalidState("仍在等待 100 Continue"@)),
                ),
                Some(_) => Some(AnswerView::Done),
            }
        }
    }

    /// The exchange after that.
    pub open spec fn finish_asked(self) -> ExchangeView {
        if self.finish_answer() == Some(AnswerView::Done) {
            ExchangeView { request_finished: true, ..self }
        } else {
            self
        }
    }

    /// What the end of the request's body leads to.
    pub open spec fn finish_result(self, note: FinishNote) -> WireView {
        match note {
            FinishNote::Over(data) => WireView::Send { transport: self.transport, data },
            FinishNote::More => failure(HttpErrorView::Protocol("请求体尚未完成"@)),
            FinishNote::Lost => failure(HttpErrorView::InvalidState("请求状态丢失"@)),
            FinishNote::Failed(reason) => failure(HttpErrorView::Protocol(reason)),
        }
    }

    /// The exchange after that.
    pub open spec fn after_finish(self, note: FinishNote) -> ExchangeView {
        match note {
            FinishNote::Over(data) => ExchangeView {
                proto: Some(Stage::RecvResponse),
                request_finished: true,
                ..self
            },
            FinishNote::Lost => ExchangeView { proto: None, ..self },
            _ => ExchangeView { proto: Some(Stage::SendBody), ..self },
        }
    }

    /// Whether a chunk has to wait for leave to be sent.
    pub open spec fn defers(self, chunk: Seq<u8>) -> bool {
        chunk.len() > 0 && self.proto == Some(Stage::Await100)
    }

    /// The exchange with such a chunk.
    pub open spec fn deferred(self, pending: Pending, chunk: Seq<u8>) -> ExchangeView {
        if self.write_waiter is Some {
            self
        } else {
            ExchangeView { write_waiter: Some((pending, chunk)), ..self }
        }
    }

    /// The answer that this gives: only one chunk can wait.
    pub open spec fn deferring(self, effects: Seq<EffectView>, pending: Pending) -> Seq<EffectView> {
        if self.write_waiter is Some {
            reply(
                effects,
                pending,
                AnswerView::Failed(
                    HttpErrorView::InvalidState("已有请求体写入在等待 100 Continue"@),
                ),
            )
        } else {
            effects
        }
    }
}

impl Exchange {
    /// Takes note of what the protocol made of the end of the request's body. The call was taken
    /// out of the exchange for that.
    pub fn ended(&mut self, outcome: FinishOutcome) -> (wire: Wire)
        requires
            old(self).proto is None,
        ensures
            final(self)@ == old(self)@.after_finish(outcome.note()),
            final(self).proto == outcome.left(),
            wire@ == old(self)@.finish_result(outcome.note()),
    {
        let ghost note = outcome.note();
        let ghost before = self@;
        let wire = match outcome {
            FinishOutcome::Over { data, call } => {
                self.proto = Some(Proto::RecvResponse(call));
                self.request_finished = true;
                Wire::Send { transport: self.transport, data }
            },
            FinishOutcome::More(call) => {
                self.proto = Some(Proto::SendBody(call));
                Wire::Answer(Answer::Failed(HttpError::Protocol("请求体尚未完成".to_owned())))
            },
            FinishOutcome::Lost => Wire::Answer(
                Answer::Failed(HttpError::InvalidState("请求状态丢失")),
            ),
            FinishOutcome::Failed { reason, call } => {
                self.proto = Some(Proto::SendBody(call));
                Wire::Answer(Answer::Failed(HttpError::Protocol(reason)))
            },
        };
        assert(self@ =~= before.after_finish(note));
        wire
    }

    /// Finishes the request.
    pub fn finish(&mut self) -> (wire: Wire)
        ensures
            match old(self)@.finish_answer() {
                Some(answer) => {
                    &&& wire@ == WireView::Answer(answer)
                    &&& final(self)@ == old(self)@.finish_asked()
                    &&& final(self).proto == old(self).proto
                },
                None => ({
                    let call = old(self).proto->0->SendBody_0;
                    let note = finish_note(call);
                    &&& may_finish(note)
                    &&& wire@ == old(self)@.finish_result(note)
                    &&& final(self)@ == old(self)@.after_finish(note)
                    &&& final(self).proto == finish_left(call)
                }),
            },
    {
        let ghost before = self@;
        if self.request_finished {
            assert(self@ =~= before.finish_asked());
            return Wire::Answer(Answer::Done);
        }
        if let Some(expected) = self.request_expected {
            if self.request_written != expected {
                return Wire::Answer(
                    Answer::Failed(
                        HttpError::BodyLengthMismatch { expected, actual: self.request_written },
                    ),
                );
            }
        }
        match self.proto.take() {
            None => {
                assert(self@ =~= before);
                Wire::Answer(Answer::Failed(HttpError::InvalidState("请求状态丢失")))
            },
            Some(Proto::SendBody(call)) => {
                let outcome = FinishOutcome::consult(call);
                let ghost note = outcome.note();
                let ghost taken = self@;
                let wire = self.ended(outcome);
                assert(taken.after_finish(note) =~= before.after_finish(note));
                assert(wire@ == before.finish_result(note));
                wire
            },
            Some(Proto::Await100(call)) => {
                self.proto = Some(Proto::Await100(call));
                assert(self@ =~= before);
                Wire::Answer(Answer::Failed(HttpError::InvalidState("仍在等待 100 Continue")))
            },
            Some(other) => {
                self.proto = Some(other);
                self.request_finished = true;
                assert(self@ =~= before.finish_asked());
                Wire::Answer(Answer::Done)
            },
        }
    }

    /// Keeps a chunk back until it is known whether the server wants the body. Handed back is a
    /// chunk that need not wait.
    pub fn defer(&mut self, pending: Pending, chunk: Vec<u8>, output: &mut ClientOutput) -> (back:
        Option<Vec<u8>>)
        ensures
            old(self)@.defers(chunk@) ==> {
                &&& back is None
                &&& final(self)@ == old(self)@.deferred(pending, chunk@)
                &&& final(output)@ == old(self)@.deferring(old(output)@, pending)
            },
            !old(self)@.defers(chunk@) ==> {
                &&& back == Some(chunk)
                &&& final(self)@ == old(self)@
                &&& final(output)@ == old(output)@
            },
            final(self).proto == old(self).proto,
    {
        if chunk.len() == 0 {
            return Some(chunk);
        }
        match &self.proto {
            Some(Proto::Await100(_)) => {},
            _ => {
                return Some(chunk);
            },
        }
        if self.write_waiter.is_some() {
            output.reply(
                pending,
                Answer::Failed(HttpError::InvalidState("已有请求体写入在等待 100 Continue")),
            );
        } else {
            self.write_waiter = Some(QueuedChunk { pending, chunk });
            assert(self@ =~= old(self)@.deferred(pending, chunk@));
        }
        None
    }
}

/// Where the protocol goes when the server has not said in time whether it wants the body.
#[verifier::ext_equal]
pub enum LateNote {
    SendBody,
    RecvResponse,
    Failed(Seq<char>),
}

/// What that is.
pub open spec fn late_note(next: AfterAwait) -> LateNote {
    match next {
        AfterAwait::SendBody(_) => LateNote::SendBody,
        AfterAwait::RecvResponse(_) => LateNote::RecvResponse,
        AfterAwait::Failed(reason) => LateNote::Failed(reason@),
    }
}

/// The call that goes on then.
pub open spec fn late_call(next: AfterAwait) -> Option<Proto> {
    match next {
        AfterAwait::SendBody(call) => Some(Proto::SendBody(call)),
        AfterAwait::RecvResponse(call) => Some(Proto::RecvResponse(call)),
        AfterAwait::Failed(_) => None,
    }
}

/// The call that goes on when a call may have waited.
pub open spec fn late_left(proto: Option<Proto>) -> Option<Proto> {
    match proto {
        Some(Proto::Await100(call)) => late_call(await_next(call.call())),
        _ => None,
    }
}

/// What that is for a call that may wait for it.
pub open spec fn late_step(proto: Option<Proto>) -> LateNote {
    match proto {
        Some(Proto::Await100(call)) => late_note(await_next(call.call())),
        _ => LateNote::SendBody,
    }
}

impl ExchangeView {
    /// The exchange when the time is over in which the server was to say whether it wants the
    /// body. Outside of that stage the protocol comes to its end.
    pub open spec fn late(self, note: LateNote) -> ExchangeView {
        if self.proto != Some(Stage::Await100) {
            ExchangeView { proto: None, ..self }
        } else {
            let x = ExchangeView { write_waiter: None, ..self };
            match note {
                LateNote::SendBody => ExchangeView { proto: Some(Stage::SendBody), ..x },
                LateNote::RecvResponse => ExchangeView { proto: Some(Stage::RecvResponse), ..x },
                LateNote::Failed(reason) => x.broken(reason),
            }
        }
    }

    /// The chunk that can be sent then.
    pub open spec fn late_job(self, note: LateNote) -> Option<(Pending, Seq<u8>)> {
        if self.proto == Some(Stage::Await100) && note is SendBody {
            self.write_waiter
        } else {
            None
        }
    }

    /// Whoever waits to send a chunk that is not wanted is told so.
    pub open spec fn late_effects(self, effects: Seq<EffectView>, note: LateNote) -> Seq<
        EffectView,
    > {
        if self.proto == Some(Stage::Await100) && !(note is SendBody) {
            reply_to(
                effects,
                waiting_for(self.write_waiter),
                AnswerView::Failed(HttpErrorView::RequestBodyRejected),
            )
        } else {
            effects
        }
    }

    /// Whether the response is to be read then.
    pub open spec fn late_reads(self, note: LateNote) -> bool {
        self.proto == Some(Stage::Await100) && note is RecvResponse
    }
}

/// What is to be done when the server has not said in time whether it wants the body.
pub struct Late {
    /// A chunk that can be sent now.
    pub job: Option<QueuedChunk>,
    /// Whether the response is to be read.
    pub read: bool,
}

impl Exchange {
    /// Goes on where the protocol leads when the server has not said in time whether it wants the
    /// body. The call was taken out of the exchange for that.
    pub fn went_on(&mut self, next: AfterAwait, output: &mut ClientOutput) -> (late: Late)
        requires
            old(self).proto is None,
        ensures
            final(self)@ == old(self)@.at(Stage::Await100).late(late_note(next)),
            final(self).proto == late_call(next),
            final(output)@ == old(self)@.at(Stage::Await100).late_effects(
                old(output)@,
                late_note(next),
            ),
            queued(late.job) == old(self)@.at(Stage::Await100).late_job(late_note(next)),
            late.read == old(self)@.at(Stage::Await100).late_reads(late_note(next)),
    {
        let ghost note = late_note(next);
        let ghost before = self@.at(Stage::Await100);
        let waiting = self.write_waiter.take();
        let late = match next {
            AfterAwait::SendBody(call) => {
                self.proto = Some(Proto::SendBody(call));
                Late { job: waiting, read: false }
            },
            AfterAwait::RecvResponse(call) => {
                self.proto = Some(Proto::RecvResponse(call));
                if let Some(waiting) = waiting {
                    output.reply(
                        waiting.pending,
                        Answer::Failed(HttpError::RequestBodyRejected),
                    );
                }
                Late { job: None, read: true }
            },
            AfterAwait::Failed(reason) => {
                self.error = Some(reason);
                if let Some(waiting) = waiting {
                    output.reply(
                        waiting.pending,
                        Answer::Failed(HttpError::RequestBodyRejected),
                    );
                }
                Late { job: None, read: false }
            },
        };
        assert(self@ =~= before.late(note));
        late
    }

    /// The time is over in which the server was to say whether it wants the body.
    pub fn too_late(&mut self, output: &mut ClientOutput) -> (late: Late)
        ensures
            ({
                let note = late_step(old(self).proto);
                &&& !(note is Failed)
                &&& final(self)@ == old(self)@.late(note)
                &&& final(self).proto == late_left(old(self).proto)
                &&& final(output)@ == old(self)@.late_effects(old(output)@, note)
                &&& queued(late.job) == old(self)@.late_job(note)
                &&& late.read == old(self)@.late_reads(note)
            }),
    {
        let ghost before = self@;
        match self.proto.take() {
            Some(Proto::Await100(call)) => {
                let next = after_await(call.into_call());
                let ghost note = late_note(next);
                assert(self@.at(Stage::Await100) =~= before);
                let late = self.went_on(next, output);
                assert(self@ == before.late(note));
                late
            },
            _ => {
                assert(self@ =~= before.late(LateNote::SendBody));
                Late { job: None, read: false }
            },
        }
    }
}

/// A body whose length was announced cannot be finished before exactly that much was written.
pub proof fn law_announced_length_is_kept(exchange: ExchangeView, note: FinishNote)
    requires
        !exchange.request_finished,
        exchange.request_expected is Some,
        exchange.request_expected->0 != exchange.request_written,
    ensures
        exchange.finish_answer() == Some(
            AnswerView::Failed(
                HttpErrorView::BodyLengthMismatch {
                    expected: exchange.request_expected->0,
                    actual: exchange.request_written,
                },
            ),
        ),
        exchange.finish_asked() == exchange,
{
}

/// After a request was finished no more of its body is taken, and finishing it again changes
/// nothing.
pub proof fn law_a_finished_request_stays_finished(exchange: ExchangeView, note: FinishNote)
    requires
        exchange.finish_answer() is None,
        note is Over,
    ensures
        exchange.after_finish(note).write_obstacle() == Some(HttpErrorView::BodyClosed),
        exchange.after_finish(note).finish_answer() == Some(AnswerView::Done),
        exchange.after_finish(note).finish_asked() == exchange.after_finish(note),
{
}

} // verus!
