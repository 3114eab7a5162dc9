//! How a server's connection hands out a request's body and sends the response.

use crate::http::call::BodyWrite;
use crate::http::connection::ServerConnection;
#[allow(unused_imports)]
use crate::http::connection::ConnectionView;
#[allow(unused_imports)]
use crate::http::effect::optional_bytes;
use crate::http::client::next_number;
#[allow(unused_imports)]
use crate::http::client::following;
use crate::http::error::HttpError;
#[allow(unused_imports)]
use crate::http::error::HttpErrorView;
use crate::http::exchange::buffered_bytes;
#[allow(unused_imports)]
use crate::http::request::{body_room, capped_sum, head_with, room_for, write_note, WriteNote};
use crate::http::request::{head_room, push_head};
use crate::http::reply::{
    accept_body, after_response_body, after_response_head, new_response, provide, reject_body,
    reply_must_close, response_written, write_response, write_response_body, Accepted,
    AfterResponseBody, AfterResponseHead, Attending, ReplyDraft, ResponseDraft, ServerProto,
};
#[allow(unused_imports)]
use crate::http::reply::{
    allowed, leave, provided, rejected, reply_closes, response_body_next, response_body_write,
    response_for, response_head_next, response_heads, response_whole, response_write,
    ResponseView, ServerStage,
};
use std::collections::VecDeque;
use ureq_proto::http::HeaderMap;
#[allow(unused_imports)]
use ureq_proto::http::Response;
#[allow(unused_imports)]
use ureq_proto::server::state::{ProvideResponse, SendResponse};
use ureq_proto::server::state::SendBody;
use ureq_proto::server::Reply;
use vstd::prelude::*;

verus! {

/// Where a response goes from its head.
#[verifier::ext_equal]
pub enum ReplyEnd {
    /// A body follows.
    Body,
    /// Nothing follows; the connection has to be closed, or not.
    Over(bool),
    Unfinished,
}

/// What is said of the head of a response that does not get on.
pub open spec fn respond_stalled() -> Seq<char> {
    "序列化响应头没有进展"@
}

/// What is said of the head of a switch that does not get on.
pub open spec fn switch_stalled() -> Seq<char> {
    "序列化 101 响应没有进展"@
}

/// What a response comes to.
#[derive(Debug)]
pub struct Responded {
    /// The bytes of its head.
    pub data: Vec<u8>,
    /// Whether a body follows.
    pub body: bool,
    /// Whether the connection is to be closed then.
    pub close: bool,
}

/// The head that a reply writes in at most so many turns, behind what is there already, and the
/// reply after that; or why it cannot be written. A head may have `limit` bytes, and `stalled` is
/// what is said of one that does not get on.
pub open spec fn reply_run(
    reply: Reply<SendResponse>,
    head: Seq<u8>,
    limit: usize,
    stalled: Seq<char>,
    turns: nat,
) -> Result<(Seq<u8>, Reply<SendResponse>), HttpErrorView>
    decreases turns,
{
    if turns == 0 || response_whole(reply) {
        Ok((head, reply))
    } else {
        let (part, after) = response_write(reply, room_for(head, limit));
        match part {
            Err(reason) => Err(HttpErrorView::Protocol(reason)),
            Ok(part) => match head_with(head, part, limit, stalled) {
                Err(error) => Err(error),
                Ok(longer) => reply_run(after, longer, limit, stalled, (turns - 1) as nat),
            },
        }
    }
}

/// The head that a reply writes, and where it goes from there; or why it cannot be written.
pub open spec fn reply_out(reply: Reply<SendResponse>, limit: usize, stalled: Seq<char>) -> Result<
    (Seq<u8>, AfterResponseHead),
    HttpErrorView,
> {
    match reply_run(reply, Seq::empty(), limit, stalled, u64::MAX as nat) {
        Ok((head, reply)) => Ok((head, response_head_next(reply))),
        Err(error) => Err(error),
    }
}

/// The head of a response that a reply is given, and where the reply goes from there; or why it
/// does not take it, or cannot write it.
pub open spec fn reply_head(
    reply: Reply<ProvideResponse>,
    response: Response<()>,
    limit: usize,
    stalled: Seq<char>,
) -> Result<(Seq<u8>, AfterResponseHead), HttpErrorView> {
    match provided(reply, response) {
        Ok(reply) => reply_out(reply, limit, stalled),
        Err(reason) => Err(HttpErrorView::Protocol(reason)),
    }
}

/// What that says.
pub open spec fn reply_note(head: Result<(Seq<u8>, AfterResponseHead), HttpErrorView>) -> Result<
    (Seq<u8>, ReplyEnd),
    HttpErrorView,
> {
    match head {
        Ok((data, after)) => Ok((data, led_to(after))),
        Err(error) => Err(error),
    }
}

/// The reply of a connection that can be given a response. A client that waits for leave to send
/// its body does not get it.
pub open spec fn offered(proto: Option<ServerProto>) -> Reply<ProvideResponse> {
    match proto {
        Some(ServerProto::Await100(reply)) => rejected(reply),
        _ => proto->0->Provide_0,
    }
}

/// The reply that goes on from a head.
pub open spec fn reply_left(head: Result<(Seq<u8>, AfterResponseHead), HttpErrorView>) -> Option<
    ServerProto,
> {
    match head {
        Ok((data, AfterResponseHead::SendBody(reply))) => Some(ServerProto::SendBody(reply)),
        Ok((data, AfterResponseHead::Cleanup(_))) => Some(ServerProto::Responding),
        _ => None,
    }
}

/// Where a response goes from its head.
pub open spec fn led_to(after: AfterResponseHead) -> ReplyEnd {
    match after {
        AfterResponseHead::SendBody(_) => ReplyEnd::Body,
        AfterResponseHead::Cleanup(reply) => ReplyEnd::Over(reply_closes(reply)),
        AfterResponseHead::Unfinished => ReplyEnd::Unfinished,
    }
}

/// A head that was written is one of those that the response can have.
pub open spec fn reply_fits(note: Result<(Seq<u8>, ReplyEnd), HttpErrorView>, of: ResponseView) -> bool {
    note matches Ok((data, end)) ==> end is Unfinished || head_known(data, of)
}

/// Bytes are one of the heads that a response can have.
pub open spec fn head_known(data: Seq<u8>, of: ResponseView) -> bool {
    response_heads(of.status, of.headers).contains(data)
}

/// A head that was written, and where the reply goes from there.
pub struct WrittenHead {
    pub data: Vec<u8>,
    pub after: AfterResponseHead,
}

/// Where that is. `close` says whether the connection has to be closed, where nothing follows.
pub open spec fn end_of(after: AfterResponseHead, close: bool) -> ReplyEnd {
    match after {
        AfterResponseHead::SendBody(_) => ReplyEnd::Body,
        AfterResponseHead::Cleanup(_) => ReplyEnd::Over(close),
        AfterResponseHead::Unfinished => ReplyEnd::Unfinished,
    }
}

/// What a head that was written, or could not be, says.
pub open spec fn written_view(head: Result<WrittenHead, HttpError>) -> Result<
    (Seq<u8>, AfterResponseHead),
    HttpErrorView,
> {
    match head {
        Ok(written) => Ok((written.data@, written.after)),
        Err(error) => Err(error@),
    }
}

/// Writes the head of a response, which may have `limit` bytes.
fn write_reply(draft: ReplyDraft, limit: usize, stalled: &str) -> (result: Result<
    WrittenHead,
    HttpError,
>)
    requires
        draft.written().len() == 0,
    ensures
        written_view(result) == reply_out(draft.reply(), limit, stalled@),
        reply_fits(reply_note(written_view(result)), draft.of()),
{
    let mut work = draft;
    let ghost of = draft.of();
    let mut head: Vec<u8> = Vec::new();
    let mut turns: u64 = u64::MAX;
    let mut done = response_written(&work);
    let ghost out = reply_run(draft.reply(), Seq::empty(), limit, stalled@, u64::MAX as nat);
    assert(work.written() =~= head@);
    assert(head@ =~= Seq::empty());
    while turns > 0 && !done
        invariant
            head@.len() <= limit,
            work.of() == of,
            work.written() == head@,
            done == response_whole(work.reply()),
            done ==> head_known(head@, of),
            out == reply_run(draft.reply(), Seq::empty(), limit, stalled@, u64::MAX as nat),
            out == reply_run(work.reply(), head@, limit, stalled@, turns as nat),
        decreases turns,
    {
        turns -= 1;
        let room: usize = head_room(&head, limit);
        match write_response(&mut work, room) {
            Err(reason) => {
                return Err(HttpError::Protocol(reason));
            },
            Ok(part) => {
                match push_head(&mut head, &part, limit, stalled) {
                    Err(error) => {
                        return Err(error);
                    },
                    Ok(()) => {},
                }
                done = response_written(&work);
            },
        }
    }
    let after = after_response_head(work);
    Ok(WrittenHead { data: head, after })
}

impl ConnectionView {
    /// Why no response can be given now.
    pub open spec fn respond_obstacle(self) -> Option<HttpErrorView> {
        match self.proto {
            None => Some(HttpErrorView::InvalidState("服务端协议状态丢失"@)),
            Some(ServerStage::Await100) => None,
            Some(ServerStage::Provide) => None,
            Some(_) => Some(HttpErrorView::InvalidState("请求体尚未消费完"@)),
        }
    }

    /// What a response comes to.
    pub open spec fn respond_result(self, note: Result<(Seq<u8>, ReplyEnd), HttpErrorView>) -> Result<
        (Seq<u8>, bool, bool),
        HttpErrorView,
    > {
        match note {
            Err(error) => Err(error),
            Ok((data, end)) => match end {
                ReplyEnd::Body => Ok((data, true, false)),
                ReplyEnd::Over(close) => Ok((data, false, close)),
                ReplyEnd::Unfinished => Err(HttpErrorView::Protocol("响应头状态无法推进"@)),
            },
        }
    }

    /// The connection after that. `expected` is how long the body is to be, where that was said.
    pub open spec fn after_respond(
        self,
        note: Result<(Seq<u8>, ReplyEnd), HttpErrorView>,
        expected: Option<u64>,
    ) -> ConnectionView {
        match self.respond_result(note) {
            Err(_) => ConnectionView { proto: None, ..self },
            Ok((data, true, close)) => ConnectionView {
                response_expected: expected,
                response_written: 0,
                proto: Some(ServerStage::SendBody),
                ..self
            },
            Ok((data, false, close)) => ConnectionView {
                proto: Some(ServerStage::Responding),
                ..self
            },
        }
    }

    /// What the end of a response's body comes to without the protocol being asked.
    pub open spec fn end_obstacle(self) -> Option<HttpErrorView> {
        if self.proto != Some(ServerStage::SendBody) {
            Some(HttpErrorView::BodyClosed)
        } else if self.response_expected is Some && self.response_expected->0
            != self.response_written {
            Some(
                HttpErrorView::BodyLengthMismatch {
                    expected: self.response_expected->0,
                    actual: self.response_written,
                },
            )
        } else {
            None
        }
    }

    /// The connection after something was asked of it that only works while a body is sent: at
    /// another stage the protocol comes to its end.
    pub open spec fn sending_only(self) -> ConnectionView {
        if self.proto == Some(ServerStage::SendBody) {
            self
        } else {
            ConnectionView { proto: None, ..self }
        }
    }

    /// What writing a chunk of so many bytes leads to.
    pub open spec fn chunk_result(self, size: int, note: WriteNote) -> Result<
        Seq<u8>,
        HttpErrorView,
    > {
        match note {
            WriteNote::Wrote { used, data } => if used == size {
                Ok(data)
            } else {
                Err(HttpErrorView::Protocol("响应体没有完整编码"@))
            },
            WriteNote::Failed(reason) => Err(HttpErrorView::Protocol(reason)),
        }
    }

    /// The connection after that.
    pub open spec fn after_chunk(self, size: int, note: WriteNote) -> ConnectionView {
        match note {
            WriteNote::Wrote { used, data } => if used == size {
                ConnectionView {
                    response_written: capped_sum(self.response_written, used),
                    ..self
                }
            } else {
                self
            },
            WriteNote::Failed(_) => ConnectionView { proto: None, ..self },
        }
    }

    /// What the end of a response's body leads to.
    pub open spec fn end_result(self, note: EndNote) -> Result<(Seq<u8>, bool), HttpErrorView> {
        match note {
            EndNote::Over { data, close } => Ok((data, close)),
            EndNote::More => Err(HttpErrorView::Protocol("响应体尚未完成"@)),
            EndNote::Failed(reason) => Err(HttpErrorView::Protocol(reason)),
        }
    }

    /// The connection after that.
    pub open spec fn after_end(self, note: EndNote) -> ConnectionView {
        match note {
            EndNote::Over { data, close } => ConnectionView {
                proto: Some(ServerStage::Responding),
                ..self
            },
            EndNote::More => self,
            EndNote::Failed(_) => ConnectionView { proto: None, ..self },
        }
    }

    /// The connection when the next request is awaited.
    pub open spec fn renewed(self) -> ConnectionView {
        ConnectionView {
            proto: Some(ServerStage::RecvRequest),
            body_ended: false,
            chunks: Seq::empty(),
            error: None,
            response_expected: None,
            response_written: 0,
            header_generation: following(self.header_generation),
            ..self
        }
    }

    /// What a reader of the request's body is answered now; nothing where it has to wait.
    pub open spec fn chunk_answer(self) -> Option<Result<Option<Seq<u8>>, HttpErrorView>> {
        if self.chunks.len() > 0 {
            Some(Ok(Some(self.chunks[0])))
        } else if self.error is Some {
            Some(Err(HttpErrorView::Transport(self.error->0)))
        } else if self.body_ended {
            Some(Ok(None))
        } else {
            None
        }
    }

    /// What is left when a part of the body was handed out, if there was one.
    pub open spec fn chunk_taken(self) -> ConnectionView {
        if self.chunks.len() > 0 {
            ConnectionView { chunks: self.chunks.skip(1), ..self }
        } else {
            self
        }
    }

    /// The connection after someone asked for the next part of the body.
    pub open spec fn chunk_asked(self, low: usize) -> ConnectionView {
        let x = self.chunk_taken();
        if x.to_resume(low) {
            ConnectionView { paused: false, ..x }
        } else {
            x
        }
    }
}

/// What the protocol made of the end of a response's body.
#[verifier::ext_equal]
pub enum EndNote {
    /// These bytes end it; the connection has to be closed, or not.
    Over { data: Seq<u8>, close: bool },
    More,
    Failed(Seq<char>),
}

/// What a reply makes of a chunk of a response's body.
pub open spec fn answer_note(reply: Reply<SendBody>, chunk: Seq<u8>) -> WriteNote {
    match response_body_write(reply, chunk, body_room(chunk.len() as int)).0 {
        Ok((used, data)) => WriteNote::Wrote { used, data },
        Err(reason) => WriteNote::Failed(reason),
    }
}

/// The reply after that.
pub open spec fn answer_left(reply: Reply<SendBody>, chunk: Seq<u8>) -> Option<ServerProto> {
    let (result, after) = response_body_write(reply, chunk, body_room(chunk.len() as int));
    if result is Err {
        None
    } else {
        Some(ServerProto::SendBody(after))
    }
}

/// What a reply can make of a chunk of a response's body.
pub open spec fn may_answer(chunk: Seq<u8>, note: WriteNote) -> bool {
    &&& exists|reply: Reply<SendBody>| note == #[trigger] answer_note(reply, chunk)
    &&& note matches WriteNote::Wrote { used, data } ==> 0 <= used <= chunk.len() && data.len()
        <= body_room(chunk.len() as int)
}

/// What a reply makes of the end of a response's body, which is a chunk of no bytes.
pub open spec fn end_note(reply: Reply<SendBody>) -> EndNote {
    let (result, after) = response_body_write(reply, Seq::empty(), 64);
    match result {
        Err(reason) => EndNote::Failed(reason),
        Ok((used, data)) => match response_body_next(after) {
            AfterResponseBody::More(_) => EndNote::More,
            AfterResponseBody::Cleanup(reply) => EndNote::Over { data, close: reply_closes(reply) },
        },
    }
}

/// The reply after that.
pub open spec fn end_left(reply: Reply<SendBody>) -> Option<ServerProto> {
    let (result, after) = response_body_write(reply, Seq::empty(), 64);
    if result is Err {
        None
    } else {
        match response_body_next(after) {
            AfterResponseBody::More(reply) => Some(ServerProto::SendBody(reply)),
            AfterResponseBody::Cleanup(_) => Some(ServerProto::Responding),
        }
    }
}

/// What a reply can make of the end of a response's body.
pub open spec fn may_end(note: EndNote) -> bool {
    exists|reply: Reply<SendBody>| note == #[trigger] end_note(reply)
}

/// What the protocol made of the end of a response's body.
pub enum EndOutcome {
    Over { data: Vec<u8>, close: bool },
    More(Reply<SendBody>),
    Failed(String),
}

impl EndOutcome {
    /// What it says.
    pub open spec fn note(self) -> EndNote {
        match self {
            EndOutcome::Over { data, close } => EndNote::Over { data: data@, close },
            EndOutcome::More(_) => EndNote::More,
            EndOutcome::Failed(reason) => EndNote::Failed(reason@),
        }
    }

    /// The reply after it.
    pub open spec fn left(self) -> Option<ServerProto> {
        match self {
            EndOutcome::Over { data, close } => Some(ServerProto::Responding),
            EndOutcome::More(reply) => Some(ServerProto::SendBody(reply)),
            EndOutcome::Failed(_) => None,
        }
    }

    /// Asks the protocol.
    fn consult(reply: Reply<SendBody>) -> (outcome: EndOutcome)
        ensures
            outcome.note() == end_note(reply),
            outcome.left() == end_left(reply),
    {
        let mut reply = reply;
        let nothing: Vec<u8> = Vec::new();
        assert(nothing@ =~= Seq::empty());
        match write_response_body(&mut reply, nothing.as_slice(), 64) {
            BodyWrite::Failed(reason) => EndOutcome::Failed(reason),
            BodyWrite::Wrote { used, data } => {
                match after_response_body(reply) {
                    AfterResponseBody::More(reply) => EndOutcome::More(reply),
                    AfterResponseBody::Cleanup(reply) => EndOutcome::Over {
                        data,
                        close: reply_must_close(&reply),
                    },
                }
            },
        }
    }
}

/// What a response that may have failed says.
pub open spec fn responded_view(result: Result<Responded, HttpError>) -> Result<
    (Seq<u8>, bool, bool),
    HttpErrorView,
> {
    match result {
        Ok(responded) => Ok((responded.data@, responded.body, responded.close)),
        Err(error) => Err(error@),
    }
}

/// What bytes that may have failed say.
pub open spec fn bytes_view(result: Result<Vec<u8>, HttpError>) -> Result<Seq<u8>, HttpErrorView> {
    match result {
        Ok(data) => Ok(data@),
        Err(error) => Err(error@),
    }
}

/// What the end of a body that may have failed says.
pub open spec fn ended_view(result: Result<(Vec<u8>, bool), HttpError>) -> Result<
    (Seq<u8>, bool),
    HttpErrorView,
> {
    match result {
        Ok((data, close)) => Ok((data@, close)),
        Err(error) => Err(error@),
    }
}

/// What asking for the next part of a request's body comes to.
pub struct ChunkNext {
    /// What is answered now.
    pub answer: Option<Result<Option<Vec<u8>>, HttpError>>,
    /// Whether the connection is to receive again first.
    pub resume: bool,
    /// Whether the connection is forgotten then.
    pub remove: bool,
}

/// What an answer about a body says.
pub open spec fn chunk_view(answer: Option<Result<Option<Vec<u8>>, HttpError>>) -> Option<
    Result<Option<Seq<u8>>, HttpErrorView>,
> {
    match answer {
        Some(Ok(chunk)) => Some(Ok(optional_bytes(chunk))),
        Some(Err(error)) => Some(Err(error@)),
        None => None,
    }
}

impl ServerConnection {
    /// Goes on when the head of a response was written, or could not be. The reply was taken out
    /// of the connection for that.
    pub fn replied(&mut self, head: Result<WrittenHead, HttpError>, close: bool, expected: Option<
        u64,
    >) -> (result: Result<Responded, HttpError>)
        requires
            old(self).proto is None,
        ensures
            final(self).proto == reply_left(written_view(head)),
            match head {
                Err(error) => {
                    &&& responded_view(result) == Err::<(Seq<u8>, bool, bool), HttpErrorView>(
                        error@,
                    )
                    &&& final(self)@ == old(self)@
                },
                Ok(head) => match end_of(head.after, close) {
                    ReplyEnd::Body => {
                        &&& responded_view(result) == Ok::<(Seq<u8>, bool, bool), HttpErrorView>(
                            (head.data@, true, false),
                        )
                        &&& final(self)@ == (ConnectionView {
                            response_expected: expected,
                            response_written: 0,
                            proto: Some(ServerStage::SendBody),
                            ..old(self)@
                        })
                    },
                    ReplyEnd::Over(close) => {
                        &&& responded_view(result) == Ok::<(Seq<u8>, bool, bool), HttpErrorView>(
                            (head.data@, false, close),
                        )
                        &&& final(self)@ == (ConnectionView {
                            proto: Some(ServerStage::Responding),
                            ..old(self)@
                        })
                    },
                    ReplyEnd::Unfinished => {
                        &&& responded_view(result) == Err::<(Seq<u8>, bool, bool), HttpErrorView>(
                            HttpErrorView::Protocol("响应头状态无法推进"@),
                        )
                        &&& final(self)@ == old(self)@
                    },
                },
            },
    {
        let ghost before = self@;
        match head {
            Err(error) => Err(error),
            Ok(WrittenHead { data, after }) => match after {
                AfterResponseHead::SendBody(reply) => {
                    self.response_expected = expected;
                    self.response_written = 0;
                    self.proto = Some(ServerProto::SendBody(reply));
                    assert(self@ =~= (ConnectionView {
                        response_expected: expected,
                        response_written: 0,
                        proto: Some(ServerStage::SendBody),
                        ..before
                    }));
                    Ok(Responded { data, body: true, close: false })
                },
                AfterResponseHead::Cleanup(_) => {
                    self.proto = Some(ServerProto::Responding);
                    assert(self@ =~= (ConnectionView {
                        proto: Some(ServerStage::Responding),
                        ..before
                    }));
                    Ok(Responded { data, body: false, close })
                },
                AfterResponseHead::Unfinished => Err(
                    HttpError::Protocol("响应头状态无法推进".to_owned()),
                ),
            },
        }
    }

    /// Gives the response to a request. `expected` is how long its body is to be, where that was
    /// said.
    pub fn respond(&mut self, response: ResponseDraft, expected: Option<u64>, limit: usize) -> (
    result: Result<Responded, HttpError>)
        ensures
            match old(self)@.respond_obstacle() {
                Some(error) => {
                    &&& responded_view(result) == Err::<(Seq<u8>, bool, bool), HttpErrorView>(error)
                    &&& final(self)@ == old(self)@
                    &&& final(self).proto == old(self).proto
                },
                None => ({
                    let head = reply_head(
                        offered(old(self).proto),
                        response.response(),
                        limit,
                        respond_stalled(),
                    );
                    &&& reply_fits(reply_note(head), response.of())
                    &&& responded_view(result) == old(self)@.respond_result(reply_note(head))
                    &&& final(self)@ == old(self)@.after_respond(reply_note(head), expected)
                    &&& final(self).proto == reply_left(head)
                }),
            },
    {
        let ghost before = self@;
        let ghost lost = ConnectionView { proto: None, ..before };
        let reply = match self.proto.take() {
            None => {
                assert(self@ =~= before);
                return Err(HttpError::InvalidState("服务端协议状态丢失"));
            },
            Some(ServerProto::Await100(reply)) => reject_body(reply),
            Some(ServerProto::Provide(reply)) => reply,
            Some(other) => {
                self.proto = Some(other);
                assert(self@ =~= before);
                return Err(HttpError::InvalidState("请求体尚未消费完"));
            },
        };
        assert(self@ =~= lost);
        let send = match provide(reply, response) {
            Ok(send) => send,
            Err(reason) => {
                return Err(HttpError::Protocol(reason));
            },
        };
        let head = write_reply(send, limit, "序列化响应头没有进展");
        let close = match &head {
            Ok(WrittenHead { data, after: AfterResponseHead::Cleanup(reply) }) => {
                reply_must_close(reply)
            },
            _ => false,
        };
        let ghost note = reply_note(written_view(head));
        let result = self.replied(head, close, expected);
        assert(self@ =~= before.after_respond(note, expected));
        result
    }

    /// Takes note of what the protocol made of a chunk of `size` bytes; `reply` is the reply that
    /// took it, and was taken out of the connection for that.
    pub fn chunk_wrote(&mut self, size: usize, result: BodyWrite, reply: Reply<SendBody>) -> (data:
        Result<Vec<u8>, HttpError>)
        requires
            old(self).proto is None,
        ensures
            bytes_view(data) == old(self)@.chunk_result(size as int, write_note(result)),
            final(self)@ == old(self)@.at(ServerStage::SendBody).after_chunk(
                size as int,
                write_note(result),
            ),
            final(self).proto == (if result is Failed {
                None
            } else {
                Some(ServerProto::SendBody(reply))
            }),
    {
        let ghost before = self@.at(ServerStage::SendBody);
        let ghost note = write_note(result);
        match result {
            BodyWrite::Failed(reason) => {
                assert(self@ =~= before.after_chunk(size as int, note));
                Err(HttpError::Protocol(reason))
            },
            BodyWrite::Wrote { used, data } => {
                self.proto = Some(ServerProto::SendBody(reply));
                if used != size {
                    assert(self@ =~= before);
                    return Err(HttpError::Protocol("响应体没有完整编码".to_owned()));
                }
                self.response_written = self.response_written.saturating_add(used as u64);
                assert(self@ =~= before.after_chunk(size as int, note));
                Ok(data)
            },
        }
    }

    /// Writes a chunk of the response's body.
    pub fn write_chunk(&mut self, chunk: &Vec<u8>) -> (data: Result<Vec<u8>, HttpError>)
        ensures
            old(self)@.proto != Some(ServerStage::SendBody) ==> {
                &&& bytes_view(data) == Err::<Seq<u8>, HttpErrorView>(HttpErrorView::BodyClosed)
                &&& final(self)@ == old(self)@.sending_only()
            },
            old(self)@.proto == Some(ServerStage::SendBody) ==> ({
                let note = answer_note(old(self).proto->0->SendBody_0, chunk@);
                &&& may_answer(chunk@, note)
                &&& bytes_view(data) == old(self)@.chunk_result(chunk@.len() as int, note)
                &&& final(self)@ == old(self)@.after_chunk(chunk@.len() as int, note)
                &&& final(self).proto == answer_left(old(self).proto->0->SendBody_0, chunk@)
            }),
    {
        let ghost before = self@;
        match self.proto.take() {
            Some(ServerProto::SendBody(reply)) => {
                let mut reply = reply;
                let mut room: usize = chunk.len().saturating_add(32);
                if room < 64 {
                    room = 64;
                }
                let result = write_response_body(&mut reply, chunk.as_slice(), room);
                let ghost note = write_note(result);
                assert(note == answer_note(old(self).proto->0->SendBody_0, chunk@));
                assert(self@.at(ServerStage::SendBody) =~= before);
                let data = self.chunk_wrote(chunk.len(), result, reply);
                assert(bytes_view(data) == before.chunk_result(chunk@.len() as int, note));
                data
            },
            _ => {
                assert(self@ =~= before.sending_only());
                Err(HttpError::BodyClosed)
            },
        }
    }

    /// Takes note of what the protocol made of the end of the response's body. The reply was taken
    /// out of the connection for that.
    pub fn body_over(&mut self, outcome: EndOutcome) -> (result: Result<(Vec<u8>, bool), HttpError>)
        requires
            old(self).proto is None,
        ensures
            ended_view(result) == old(self)@.end_result(outcome.note()),
            final(self)@ == old(self)@.at(ServerStage::SendBody).after_end(outcome.note()),
            final(self).proto == outcome.left(),
    {
        let ghost before = self@.at(ServerStage::SendBody);
        let ghost note = outcome.note();
        let result = match outcome {
            EndOutcome::Over { data, close } => {
                self.proto = Some(ServerProto::Responding);
                Ok((data, close))
            },
            EndOutcome::More(reply) => {
                self.proto = Some(ServerProto::SendBody(reply));
                Err(HttpError::Protocol("响应体尚未完成".to_owned()))
            },
            EndOutcome::Failed(reason) => Err(HttpError::Protocol(reason)),
        };
        assert(self@ =~= before.after_end(note));
        result
    }

    /// Ends the response's body: the bytes to send, and whether the connection is to be closed
    /// then.
    pub fn finish(&mut self) -> (result: Result<(Vec<u8>, bool), HttpError>)
        ensures
            match old(self)@.end_obstacle() {
                Some(error) => {
                    &&& ended_view(result) == Err::<(Seq<u8>, bool), HttpErrorView>(error)
                    &&& final(self)@ == old(self)@.sending_only()
                },
                None => ({
                    let note = end_note(old(self).proto->0->SendBody_0);
                    &&& may_end(note)
                    &&& ended_view(result) == old(self)@.end_result(note)
                    &&& final(self)@ == old(self)@.after_end(note)
                    &&& final(self).proto == end_left(old(self).proto->0->SendBody_0)
                }),
            },
    {
        let ghost before = self@;
        match self.proto.take() {
            Some(ServerProto::SendBody(reply)) => {
                if let Some(expected) = self.response_expected {
                    if self.response_written != expected {
                        self.proto = Some(ServerProto::SendBody(reply));
                        assert(self@ =~= before.sending_only());
                        return Err(
                            HttpError::BodyLengthMismatch {
                                expected,
                                actual: self.response_written,
                            },
                        );
                    }
                }
                let outcome = EndOutcome::consult(reply);
                let ghost note = outcome.note();
                assert(self@.at(ServerStage::SendBody) =~= before);
                let result = self.body_over(outcome);
                assert(ended_view(result) == before.end_result(note));
                result
            },
            _ => {
                assert(self@ =~= before.sending_only());
                Err(HttpError::BodyClosed)
            },
        }
    }

    /// Makes the connection ready for the next request.
    pub fn renew(&mut self, reply: Attending)
        ensures
            final(self)@ == old(self)@.renewed(),
            final(self).proto == Some(ServerProto::RecvRequest(reply)),
    {
        self.proto = Some(ServerProto::RecvRequest(reply));
        self.body_ended = false;
        self.chunks = VecDeque::new();
        self.error = None;
        self.response_expected = None;
        self.response_written = 0;
        self.header_generation = next_number(self.header_generation);
        assert(self@ =~= old(self)@.renewed());
    }

    /// Someone asks for the next part of the request's body.
    pub fn ask_chunk(&mut self, low: usize) -> (next: ChunkNext)
        ensures
            final(self)@ == old(self)@.chunk_asked(low),
            final(self).proto == old(self).proto,
            chunk_view(next.answer) == old(self)@.chunk_answer(),
            next.resume == old(self)@.chunk_taken().to_resume(low),
            next.remove == (old(self)@.chunk_answer() matches Some(Err(_))),
    {
        let ghost before = self@;
        let chunk = self.chunks.pop_front();
        let mut remove = false;
        let answer = match chunk {
            Some(chunk) => {
                assert(self@.chunks =~= before.chunks.skip(1));
                Some(Ok(Some(chunk)))
            },
            None => match &self.error {
                Some(reason) => {
                    remove = true;
                    Some(Err(HttpError::Transport(reason.clone())))
                },
                None => if self.body_ended {
                    Some(Ok(None))
                } else {
                    None
                },
            },
        };
        assert(self@ =~= before.chunk_taken());
        let buffered: u128 = buffered_bytes(&self.input, &self.chunks);
        let resume = self.paused && buffered <= low as u128;
        if resume {
            self.paused = false;
        }
        assert(self@ =~= before.chunk_asked(low));
        ChunkNext { answer, resume, remove }
    }
}

/// What the protocol made of giving leave to send a body.
#[verifier::ext_equal]
pub enum LeaveNote {
    Leave(Seq<u8>),
    Failed(Seq<char>),
}

/// What that is.
pub open spec fn leave_note(accepted: Accepted) -> LeaveNote {
    match accepted {
        Accepted::Leave { data, reply } => LeaveNote::Leave(data@),
        Accepted::Failed(reason) => LeaveNote::Failed(reason@),
    }
}

impl ConnectionView {
    /// The connection when the client was given leave to send its body, or could not be.
    pub open spec fn after_leave(self, note: LeaveNote) -> ConnectionView {
        ConnectionView {
            proto: match note {
                LeaveNote::Leave(_) => Some(ServerStage::RecvBody),
                LeaveNote::Failed(_) => None,
            },
            ..self
        }
    }
}

impl ServerConnection {
    /// Goes on when leave to send the body was written, or could not be. The reply was taken out
    /// of the connection for that.
    pub fn gave_leave(&mut self, accepted: Accepted) -> (data: Result<Vec<u8>, HttpError>)
        requires
            old(self).proto is None,
        ensures
            bytes_view(data) == match leave_note(accepted) {
                LeaveNote::Leave(data) => Ok(data),
                LeaveNote::Failed(reason) => Err(HttpErrorView::Protocol(reason)),
            },
            final(self)@ == old(self)@.after_leave(leave_note(accepted)),
            final(self).proto == (match accepted {
                Accepted::Leave { data, reply } => Some(ServerProto::RecvBody(reply)),
                Accepted::Failed(_) => None,
            }),
    {
        let ghost before = self@;
        let ghost note = leave_note(accepted);
        let data = match accepted {
            Accepted::Leave { data, reply } => {
                self.proto = Some(ServerProto::RecvBody(reply));
                Ok(data)
            },
            Accepted::Failed(reason) => Err(HttpError::Protocol(reason)),
        };
        assert(self@ =~= before.after_leave(note));
        data
    }

    /// Gives the client leave to send its body, where it waits for that: the bytes to send.
    pub fn ensure_continue(&mut self) -> (data: Result<Option<Vec<u8>>, HttpError>)
        ensures
            old(self)@.proto != Some(ServerStage::Await100) ==> {
                &&& data matches Ok(None)
                &&& final(self)@ == old(self)@
                &&& final(self).proto == old(self).proto
            },
            old(self)@.proto == Some(ServerStage::Await100) ==> {
                &&& final(self)@ == old(self)@.after_leave(LeaveNote::Leave(leave()))
                &&& final(self).proto == Some(
                    ServerProto::RecvBody(allowed(old(self).proto->0->Await100_0)),
                )
                &&& data matches Ok(Some(sent)) && sent@ == leave()
            },
    {
        let ghost before = self@;
        match self.proto.take() {
            Some(ServerProto::Await100(reply)) => {
                let accepted = accept_body(reply, 128);
                let ghost note = leave_note(accepted);
                let ghost taken = self@;
                let result = self.gave_leave(accepted);
                assert(taken.after_leave(note) =~= before.after_leave(note));
                assert(self@ == before.after_leave(note));
                match result {
                    Ok(data) => Ok(Some(data)),
                    Err(error) => Err(error),
                }
            },
            other => {
                self.proto = other;
                assert(self@ =~= before);
                Ok(None)
            },
        }
    }
}

/// What the switch of a connection to a WebSocket comes to.
pub struct Switched {
    /// The bytes of the response's head.
    pub data: Vec<u8>,
    /// What came in behind the request.
    pub tail: Vec<u8>,
}

impl ConnectionView {
    /// Why the connection cannot be switched now.
    pub open spec fn switch_obstacle(self) -> Option<HttpErrorView> {
        match self.proto {
            None => Some(HttpErrorView::InvalidState("服务端协议状态丢失"@)),
            Some(ServerStage::Provide) => None,
            Some(_) => Some(HttpErrorView::InvalidState("WebSocket 请求体尚未结束"@)),
        }
    }

    /// The bytes that the switch sends, or why it fails.
    pub open spec fn switch_result(self, note: Result<(Seq<u8>, ReplyEnd), HttpErrorView>) -> Result<
        Seq<u8>,
        HttpErrorView,
    > {
        match note {
            Err(error) => Err(error),
            Ok((data, end)) => if end is Over {
                Ok(data)
            } else {
                Err(HttpErrorView::Protocol("101 响应不应包含 body"@))
            },
        }
    }

    /// The connection after that: what came in behind the request is taken off.
    pub open spec fn after_switch(
        self,
        note: Result<(Seq<u8>, ReplyEnd), HttpErrorView>,
    ) -> ConnectionView {
        match self.switch_result(note) {
            Err(_) => ConnectionView { proto: None, ..self },
            Ok(_) => ConnectionView { proto: None, input: Seq::empty(), ..self },
        }
    }

    /// The connection when it serves a WebSocket.
    pub open spec fn switched(self, id: u64) -> ConnectionView {
        ConnectionView {
            proto: Some(ServerStage::WebSocket(id)),
            body_ended: true,
            chunks: Seq::empty(),
            ..self
        }
    }
}

/// The response that switches a connection.
pub open spec fn switching(headers: HeaderMap) -> ResponseView {
    ResponseView { status: 101, headers }
}

/// What the protocol makes of a switch with these headers.
pub open spec fn switch_note(proto: Option<ServerProto>, headers: HeaderMap, limit: usize) -> Result<
    (Seq<u8>, ReplyEnd),
    HttpErrorView,
> {
    reply_note(
        reply_head(offered(proto), response_for(101, headers), limit, switch_stalled()),
    )
}

/// What a switch that may have failed says.
pub open spec fn switched_view(result: Result<Switched, HttpError>) -> Result<
    Seq<u8>,
    HttpErrorView,
> {
    match result {
        Ok(switched) => Ok(switched.data@),
        Err(error) => Err(error@),
    }
}

impl ServerConnection {
    /// Writes the response that switches the connection to a WebSocket, with these headers.
    pub fn switch(&mut self, headers: HeaderMap, limit: usize) -> (result: Result<
        Switched,
        HttpError,
    >)
        ensures
            match old(self)@.switch_obstacle() {
                Some(error) => {
                    &&& switched_view(result) == Err::<Seq<u8>, HttpErrorView>(error)
                    &&& final(self)@ == old(self)@
                    &&& final(self).proto == old(self).proto
                },
                None => ({
                    let note = switch_note(old(self).proto, headers, limit);
                    &&& reply_fits(note, switching(headers))
                    &&& switched_view(result) == old(self)@.switch_result(note)
                    &&& final(self)@ == old(self)@.after_switch(note)
                    &&& final(self).proto is None
                }),
            },
            result matches Ok(switched) ==> switched.tail@ == old(self)@.input,
    {
        let ghost before = self@;
        let reply = match self.proto.take() {
            None => {
                assert(self@ =~= before);
                return Err(HttpError::InvalidState("服务端协议状态丢失"));
            },
            Some(ServerProto::Provide(reply)) => reply,
            Some(other) => {
                self.proto = Some(other);
                assert(self@ =~= before);
                return Err(HttpError::InvalidState("WebSocket 请求体尚未结束"));
            },
        };
        assert(self@ =~= (ConnectionView { proto: None, ..before }));
        let draft = match new_response(101, headers) {
            Ok(draft) => draft,
            Err(reason) => {
                return Err(HttpError::Protocol(reason));
            },
        };
        let send = match provide(reply, draft) {
            Ok(send) => send,
            Err(reason) => {
                return Err(HttpError::Protocol(reason));
            },
        };
        let ghost note = switch_note(old(self).proto, headers, limit);
        match write_reply(send, limit, "序列化 101 响应没有进展") {
            Err(error) => Err(error),
            Ok(WrittenHead { data, after }) => {
                match after {
                    AfterResponseHead::Cleanup(_) => {
                        let mut tail: Vec<u8> = Vec::new();
                        std::mem::swap(&mut tail, &mut self.input);
                        assert(self@ =~= before.after_switch(note));
                        Ok(Switched { data, tail })
                    },
                    _ => Err(HttpError::Protocol("101 响应不应包含 body".to_owned())),
                }
            },
        }
    }

    /// The connection serves a WebSocket from now on.
    pub fn serve_socket(&mut self, id: u64)
        ensures
            final(self)@ == old(self)@.switched(id),
            final(self).proto == Some(ServerProto::WebSocket(id)),
    {
        self.proto = Some(ServerProto::WebSocket(id));
        self.body_ended = true;
        self.chunks = VecDeque::new();
        assert(self@ =~= old(self)@.switched(id));
    }
}

} // verus!
