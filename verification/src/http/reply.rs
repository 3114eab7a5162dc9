//! The server's side of the protocol, as the `ureq-proto` crate runs it.
//!
//! A reply is a value of that crate and stays closed to the library: what it takes and hands out
//! is turned into plain values here, one function of the crate at a time.

use crate::http::call::{BodyRead, BodyWrite};
#[allow(unused_imports)]
use crate::http::call::{body_noted, part_view, written};
use ureq_proto::http::{HeaderMap, Request as HttpRequest, Response};
use ureq_proto::server::state::{
    Cleanup, ProvideResponse, RecvBody, RecvRequest, Send100, SendBody, SendResponse,
};
use ureq_proto::server::{RecvRequestResult, Reply, SendResponseResult};
use vstd::prelude::*;

verus! {

/// A request and the reply to it, at one stage of the protocol.
#[verifier::external_type_specification]
#[verifier::external_body]
#[verifier::reject_recursive_types(S)]
pub struct ExReply<S>(Reply<S>);

/// The stage in which the head of a request is awaited.
#[verifier::external_type_specification]
#[verifier::external_body]
pub struct ExRecvRequest(RecvRequest);

/// The stage in which the client waits for leave to send the body.
#[verifier::external_type_specification]
#[verifier::external_body]
pub struct ExSend100(Send100);

/// The stage in which the request's body is received.
#[verifier::external_type_specification]
#[verifier::external_body]
pub struct ExServerRecvBody(RecvBody);

/// The stage in which a response is wanted.
#[verifier::external_type_specification]
#[verifier::external_body]
pub struct ExProvideResponse(ProvideResponse);

/// The stage in which the response's head is sent.
#[verifier::external_type_specification]
#[verifier::external_body]
pub struct ExSendResponse(SendResponse);

/// The stage in which the response's body is sent.
#[verifier::external_type_specification]
#[verifier::external_body]
pub struct ExServerSendBody(SendBody);

/// The last stage.
#[verifier::external_type_specification]
#[verifier::external_body]
pub struct ExServerCleanup(Cleanup);

/// The head of a request.
#[verifier::external_type_specification]
#[verifier::external_body]
#[verifier::reject_recursive_types(T)]
pub struct ExRequest<T>(HttpRequest<T>);

/// A reply that awaits the head of a request, and has read no whole one yet.
pub struct Attending {
    reply: Reply<RecvRequest>,
    /// Whether it has read a whole head.
    headed: Ghost<bool>,
}

impl Attending {
    /// The reply.
    pub closed spec fn reply(self) -> Reply<RecvRequest> {
        self.reply
    }

    /// Whether it has read a whole head.
    pub closed spec fn headed(self) -> bool {
        self.headed@
    }

    #[verifier::type_invariant]
    spec fn none_yet(self) -> bool {
        !self.headed@
    }
}

/// `Reply::new`, which always gives one. It has read nothing.
#[verifier::external_body]
pub(crate) fn new_reply() -> (result: Result<Attending, String>)
    ensures
        result is Ok,
        result matches Ok(reply) ==> !reply.headed(),
{
    let reply = Reply::new().map_err(|error| error.to_string())?;
    Ok(Attending { reply, headed: Ghost(false) })
}

/// What came of reading the head of a request.
pub enum RequestRead {
    /// The head is whole, and so many bytes of the input belong to it.
    Whole { used: usize, request: HttpRequest<()>, reply: Reply<RecvRequest> },
    /// More has to come first.
    Partial(Attending),
    /// It cannot be read.
    Failed(String),
}

/// What `Reply::<RecvRequest>::try_request` makes of an input, with the reply after that.
pub uninterp spec fn request_read(reply: Reply<RecvRequest>, input: Seq<u8>) -> RequestRead;

/// `Reply::<RecvRequest>::try_request`. What comes out and the reply after it rest on the reply
/// and the input, and have a name. With a whole head the reply can go on, and must not be asked
/// again.
#[verifier::external_body]
fn try_request(reply: Attending, input: &[u8]) -> (read: RequestRead)
    requires
        !reply.headed(),
    ensures
        read == request_read(reply.reply(), input@),
        read matches RequestRead::Whole { used, request, reply } ==> used <= input@.len(),
        read matches RequestRead::Whole { used, request, reply } ==> !(request_next(
            reply,
        ) is Stuck),
        read matches RequestRead::Partial(reply) ==> !reply.headed(),
{
    let mut reply = reply.reply;
    match reply.try_request(input) {
        Ok((used, Some(request))) => RequestRead::Whole { used, request, reply },
        Ok((_, None)) => RequestRead::Partial(Attending { reply, headed: Ghost(false) }),
        Err(error) => RequestRead::Failed(error.to_string()),
    }
}

/// What came of reading the head of a request.
pub(crate) fn read_request(reply: Attending, input: &[u8]) -> (read: RequestRead)
    ensures
        read == request_read(reply.reply(), input@),
        read matches RequestRead::Whole { used, request, reply } ==> used <= input@.len(),
        read matches RequestRead::Whole { used, request, reply } ==> !(request_next(
            reply,
        ) is Stuck),
{
    proof {
        use_type_invariant(&reply);
    }
    try_request(reply, input)
}

/// Where a reply goes when the head of the request is read.
pub enum AfterRequest {
    Send100(Reply<Send100>),
    RecvBody(Reply<RecvBody>),
    Provide(Reply<ProvideResponse>),
    Stuck,
}

/// Where a reply goes from there.
pub uninterp spec fn request_next(reply: Reply<RecvRequest>) -> AfterRequest;

/// `Reply::<RecvRequest>::proceed`. Where it goes rests on the reply alone.
#[verifier::external_body]
pub(crate) fn after_request(reply: Reply<RecvRequest>) -> (next: AfterRequest)
    ensures
        next == request_next(reply),
{
    match reply.proceed() {
        Some(RecvRequestResult::Send100(reply)) => AfterRequest::Send100(reply),
        Some(RecvRequestResult::RecvBody(reply)) => AfterRequest::RecvBody(reply),
        Some(RecvRequestResult::ProvideResponse(reply)) => AfterRequest::Provide(reply),
        None => AfterRequest::Stuck,
    }
}

/// What `Reply::<RecvBody>::read` makes of an input and a buffer of `room` bytes, and the reply
/// after that.
pub uninterp spec fn request_body_read(reply: Reply<RecvBody>, input: Seq<u8>, room: int) -> (
    Result<(int, Seq<u8>), Seq<char>>,
    Reply<RecvBody>,
);

/// `Reply::<RecvBody>::read` into a buffer of `room` bytes. It is done with no more than it was
/// given and gives no more than the buffer holds. What comes out and the reply after it rest on
/// the reply, the input and the buffer, and have a name.
#[verifier::external_body]
pub(crate) fn read_request_body(reply: &mut Reply<RecvBody>, input: &[u8], room: usize) -> (result:
    BodyRead)
    ensures
        (body_noted(result), *final(reply)) == request_body_read(
            *old(reply),
            input@,
            room as int,
        ),
        result matches BodyRead::Read { used, data } ==> used <= input@.len() && data@.len()
            <= room,
{
    let mut output = vec![0; room];
    match reply.read(input, &mut output) {
        Ok((used, written)) => {
            output.truncate(written);
            BodyRead::Read { used, data: output }
        },
        Err(error) => BodyRead::Failed(error.to_string()),
    }
}

/// Whether the body of a request is whole.
pub uninterp spec fn request_ended(reply: Reply<RecvBody>) -> bool;

/// `Reply::<RecvBody>::is_ended`: whether the body is whole, which rests on the reply alone.
#[verifier::external_body]
fn request_is_ended(reply: &Reply<RecvBody>) -> (ended: bool)
    ensures
        ended == request_ended(*reply),
{
    reply.is_ended()
}

/// The reply that wants a response when the body is whole.
pub uninterp spec fn request_over(reply: Reply<RecvBody>) -> Reply<ProvideResponse>;

/// `Reply::<RecvBody>::proceed`, which must not be called before the body is whole, and does not
/// fail then. Where it goes rests on the reply alone.
#[verifier::external_body]
fn end_request(reply: Reply<RecvBody>) -> (next: Result<Reply<ProvideResponse>, String>)
    requires
        request_ended(reply),
    ensures
        next is Ok,
        next->Ok_0 == request_over(reply),
{
    reply.proceed().map_err(|error| error.to_string())
}

/// Where a reply goes after a part of the request's body.
pub enum AfterRequestBody {
    More(Reply<RecvBody>),
    Provide(Reply<ProvideResponse>),
    Failed(String),
}

/// Where a reply goes from there.
pub open spec fn request_body_next(reply: Reply<RecvBody>) -> AfterRequestBody {
    if request_ended(reply) {
        AfterRequestBody::Provide(request_over(reply))
    } else {
        AfterRequestBody::More(reply)
    }
}

/// Goes on after a part of the request's body.
pub(crate) fn after_request_body(reply: Reply<RecvBody>) -> (next: AfterRequestBody)
    ensures
        next == request_body_next(reply),
{
    if request_is_ended(&reply) {
        match end_request(reply) {
            Ok(reply) => AfterRequestBody::Provide(reply),
            Err(reason) => AfterRequestBody::Failed(reason),
        }
    } else {
        AfterRequestBody::More(reply)
    }
}

/// What giving the client leave to send its body comes to.
pub enum Accepted {
    /// These bytes give it.
    Leave { data: Vec<u8>, reply: Reply<RecvBody> },
    Failed(String),
}

/// The bytes that give a client leave to send its body.
pub open spec fn leave() -> Seq<u8> {
    "HTTP/1.1 100 Continue\r\n\r\n"@.map_values(|c: char| c as u8)
}

/// The bytes that give leave, where they do.
pub open spec fn leave_given(accepted: Accepted) -> Option<Seq<u8>> {
    match accepted {
        Accepted::Leave { data, reply } => Some(data@),
        Accepted::Failed(_) => None,
    }
}

/// The reply that receives the body once leave is given.
pub uninterp spec fn allowed(reply: Reply<Send100>) -> Reply<RecvBody>;

/// `Reply::<Send100>::accept` into a buffer of `room` bytes: the line that gives leave, which has
/// 25 bytes. The reply that goes on rests on the reply alone.
#[verifier::external_body]
pub(crate) fn accept_body(reply: Reply<Send100>, room: usize) -> (accepted: Accepted)
    requires
        room >= 25,
    ensures
        leave_given(accepted) == Some(leave()),
        accepted matches Accepted::Leave { data, reply: next } ==> next == allowed(reply),
{
    let mut output = vec![0; room];
    match reply.accept(&mut output) {
        Ok((used, reply)) => {
            output.truncate(used);
            Accepted::Leave { data: output, reply }
        },
        Err(error) => Accepted::Failed(error.to_string()),
    }
}

/// The reply where the body is not wanted.
pub uninterp spec fn rejected(reply: Reply<Send100>) -> Reply<ProvideResponse>;

/// `Reply::<Send100>::reject`: the response is sent without the body.
#[verifier::external_body]
pub(crate) fn reject_body(reply: Reply<Send100>) -> (next: Reply<ProvideResponse>)
    ensures
        next == rejected(reply),
{
    reply.reject()
}

/// A response as the protocol is given it.
#[verifier::ext_equal]
pub struct ResponseView {
    pub status: u16,
    pub headers: HeaderMap,
}

/// A response of the `http` crate.
pub struct ResponseDraft {
    response: Response<()>,
    of: Ghost<ResponseView>,
}

impl ResponseDraft {
    /// The response.
    pub closed spec fn response(self) -> Response<()> {
        self.response
    }

    /// What it was made of.
    pub closed spec fn of(self) -> ResponseView {
        self.of@
    }
}

/// A reply whose response is given.
pub struct ReplyDraft {
    reply: Reply<SendResponse>,
    of: Ghost<ResponseView>,
    written: Ghost<Seq<u8>>,
}

impl ReplyDraft {
    /// The reply.
    pub closed spec fn reply(self) -> Reply<SendResponse> {
        self.reply
    }

    /// What the response was made of.
    pub closed spec fn of(self) -> ResponseView {
        self.of@
    }

    /// What was written of the head so far.
    pub closed spec fn written(self) -> Seq<u8> {
        self.written@
    }
}

/// All the heads that the protocol can write for a response, whatever the reply is.
pub uninterp spec fn response_heads(status: u16, headers: HeaderMap) -> Set<Seq<u8>>;

/// The response that the `http` crate builds from a status and headers.
pub uninterp spec fn response_for(status: u16, headers: HeaderMap) -> Response<()>;

/// Builds an `http::Response` from a status and headers, unless the status is none: those have
/// three digits. The response rests on the two alone.
#[verifier::external_body]
pub(crate) fn new_response(status: u16, headers: HeaderMap) -> (result: Result<
    ResponseDraft,
    String,
>)
    ensures
        result is Ok <==> 100 <= status <= 999,
        result matches Err(reason) ==> reason@ == "invalid status code"@,
        result matches Ok(draft) ==> draft.of() == (ResponseView { status, headers })
            && draft.response() == response_for(status, headers),
{
    let of = Ghost(ResponseView { status, headers });
    let built = Response::builder().status(status).body(());
    let mut response = built.map_err(|error| error.to_string())?;
    *response.headers_mut() = headers;
    Ok(ResponseDraft { response, of })
}

/// The reply that sends a response, or why it does not take it.
pub uninterp spec fn provided(reply: Reply<ProvideResponse>, response: Response<()>) -> Result<
    Reply<SendResponse>,
    Seq<char>,
>;

/// What a reply that may not have taken its response says.
pub open spec fn provided_view(result: Result<ReplyDraft, String>) -> Result<
    Reply<SendResponse>,
    Seq<char>,
> {
    match result {
        Ok(draft) => Ok(draft.reply()),
        Err(reason) => Err(reason@),
    }
}

/// `Reply::<ProvideResponse>::provide`. Nothing of the head is written yet. Whether the reply
/// takes the response rests on the two alone.
#[verifier::external_body]
pub(crate) fn provide(reply: Reply<ProvideResponse>, draft: ResponseDraft) -> (result: Result<
    ReplyDraft,
    String,
>)
    ensures
        provided_view(result) == provided(reply, draft.response()),
        result matches Ok(next) ==> next.of() == draft.of() && next.written().len() == 0,
{
    let reply = reply.provide(draft.response).map_err(|error| error.to_string())?;
    Ok(ReplyDraft { reply, of: draft.of, written: Ghost(Seq::empty()) })
}

/// Whether the whole head of a response has been written.
pub uninterp spec fn response_whole(reply: Reply<SendResponse>) -> bool;

/// `Reply::<SendResponse>::is_finished`: whether the whole head has been written, which rests on
/// the reply alone. What was written then is one of the heads that the response can have.
#[verifier::external_body]
pub(crate) fn response_written(draft: &ReplyDraft) -> (done: bool)
    ensures
        done == response_whole(draft.reply()),
        done ==> response_heads(draft.of().status, draft.of().headers).contains(draft.written()),
{
    draft.reply.is_finished()
}

/// What `Reply::<SendResponse>::write` puts into a buffer of `room` bytes, and the reply after
/// that.
pub uninterp spec fn response_write(reply: Reply<SendResponse>, room: int) -> (
    Result<Seq<u8>, Seq<char>>,
    Reply<SendResponse>,
);

/// `Reply::<SendResponse>::write` into a buffer of `room` bytes: the next part of the head, which
/// is no longer than the buffer. What comes out and the reply after it rest on the reply and the
/// buffer, and have a name.
#[verifier::external_body]
pub(crate) fn write_response(draft: &mut ReplyDraft, room: usize) -> (part: Result<
    Vec<u8>,
    String,
>)
    ensures
        (part_view(part), final(draft).reply()) == response_write(
            old(draft).reply(),
            room as int,
        ),
        final(draft).of() == old(draft).of(),
        part matches Ok(part) ==> part@.len() <= room && final(draft).written() == old(
            draft).written() + part@,
{
    let mut output = vec![0; room];
    let used = draft.reply.write(&mut output).map_err(|error| error.to_string())?;
    output.truncate(used);
    Ok(output)
}

/// Where a reply goes when the head of the response is written.
pub enum AfterResponseHead {
    SendBody(Reply<SendBody>),
    Cleanup(Reply<Cleanup>),
    Unfinished,
}

/// Where a reply goes that has written the whole head.
pub uninterp spec fn response_proceeds(reply: Reply<SendResponse>) -> AfterResponseHead;

/// `Reply::<SendResponse>::proceed`, which must not be called before the head is whole. Where it
/// goes rests on the reply alone.
#[verifier::external_body]
fn end_response_head(draft: ReplyDraft) -> (next: AfterResponseHead)
    requires
        response_whole(draft.reply()),
    ensures
        next == response_proceeds(draft.reply()),
        !(next is Unfinished),
{
    match draft.reply.proceed() {
        SendResponseResult::SendBody(reply) => AfterResponseHead::SendBody(reply),
        SendResponseResult::Cleanup(reply) => AfterResponseHead::Cleanup(reply),
    }
}

/// Where a reply goes from the head of the response.
pub open spec fn response_head_next(reply: Reply<SendResponse>) -> AfterResponseHead {
    if response_whole(reply) {
        response_proceeds(reply)
    } else {
        AfterResponseHead::Unfinished
    }
}

/// Goes on when the head of the response is written.
pub(crate) fn after_response_head(draft: ReplyDraft) -> (next: AfterResponseHead)
    ensures
        next == response_head_next(draft.reply()),
        next is Unfinished <==> !response_whole(draft.reply()),
{
    if response_written(&draft) {
        end_response_head(draft)
    } else {
        AfterResponseHead::Unfinished
    }
}

/// What `Reply::<SendBody>::write` makes of a chunk and a buffer of `room` bytes, and the reply
/// after that.
pub uninterp spec fn response_body_write(reply: Reply<SendBody>, chunk: Seq<u8>, room: int) -> (
    Result<(int, Seq<u8>), Seq<char>>,
    Reply<SendBody>,
);

/// `Reply::<SendBody>::write` into a buffer of `room` bytes. It takes no more than it was given
/// and gives no more than the buffer holds. What comes out and the reply after it rest on the
/// reply, the chunk and the buffer, and have a name.
#[verifier::external_body]
pub(crate) fn write_response_body(reply: &mut Reply<SendBody>, chunk: &[u8], room: usize) -> (
result: BodyWrite)
    ensures
        (written(result), *final(reply)) == response_body_write(*old(reply), chunk@, room as int),
        result matches BodyWrite::Wrote { used, data } ==> used <= chunk@.len() && data@.len()
            <= room,
{
    let mut output = vec![0; room];
    match reply.write(chunk, &mut output) {
        Ok((used, written)) => {
            output.truncate(written);
            BodyWrite::Wrote { used, data: output }
        },
        Err(error) => BodyWrite::Failed(error.to_string()),
    }
}

/// Whether the whole body of a response has been written.
pub uninterp spec fn response_body_whole(reply: Reply<SendBody>) -> bool;

/// `Reply::<SendBody>::is_finished`: whether the whole body has been written, which rests on the
/// reply alone.
#[verifier::external_body]
fn response_body_written(reply: &Reply<SendBody>) -> (done: bool)
    ensures
        done == response_body_whole(*reply),
{
    reply.is_finished()
}

/// The reply at its last stage when the whole body has been written.
pub uninterp spec fn response_over(reply: Reply<SendBody>) -> Reply<Cleanup>;

/// `Reply::<SendBody>::proceed`, which must not be called before the body is whole. Where it goes
/// rests on the reply alone.
#[verifier::external_body]
fn end_response(reply: Reply<SendBody>) -> (next: Reply<Cleanup>)
    requires
        response_body_whole(reply),
    ensures
        next == response_over(reply),
{
    reply.proceed()
}

/// Where a reply goes when the body of the response is written.
pub enum AfterResponseBody {
    More(Reply<SendBody>),
    Cleanup(Reply<Cleanup>),
}

/// Where a reply goes from there.
pub open spec fn response_body_next(reply: Reply<SendBody>) -> AfterResponseBody {
    if response_body_whole(reply) {
        AfterResponseBody::Cleanup(response_over(reply))
    } else {
        AfterResponseBody::More(reply)
    }
}

/// Goes on after a part of the response's body.
pub(crate) fn after_response_body(reply: Reply<SendBody>) -> (next: AfterResponseBody)
    ensures
        next == response_body_next(reply),
{
    if response_body_written(&reply) {
        AfterResponseBody::Cleanup(end_response(reply))
    } else {
        AfterResponseBody::More(reply)
    }
}

/// Whether a reply leaves a connection that has to be closed.
pub uninterp spec fn reply_closes(reply: Reply<Cleanup>) -> bool;

/// `Reply::<Cleanup>::must_close_connection`, which rests on the reply alone.
#[verifier::external_body]
pub(crate) fn reply_must_close(reply: &Reply<Cleanup>) -> (must: bool)
    ensures
        must == reply_closes(*reply),
{
    reply.must_close_connection()
}

/// A reply at the stage it has reached.
pub enum ServerProto {
    RecvRequest(Attending),
    Await100(Reply<Send100>),
    RecvBody(Reply<RecvBody>),
    Provide(Reply<ProvideResponse>),
    SendBody(Reply<SendBody>),
    Responding,
    /// The connection serves a WebSocket with this number.
    WebSocket(u64),
}

/// The stages of a reply.
#[derive(Debug, Clone, Copy, PartialEq, Eq, Structural)]
pub enum ServerStage {
    RecvRequest,
    Await100,
    RecvBody,
    Provide,
    SendBody,
    Responding,
    WebSocket(u64),
}

impl View for ServerProto {
    type V = ServerStage;

    open spec fn view(&self) -> ServerStage {
        match *self {
            ServerProto::RecvRequest(_) => ServerStage::RecvRequest,
            ServerProto::Await100(_) => ServerStage::Await100,
            ServerProto::RecvBody(_) => ServerStage::RecvBody,
            ServerProto::Provide(_) => ServerStage::Provide,
            ServerProto::SendBody(_) => ServerStage::SendBody,
            ServerProto::Responding => ServerStage::Responding,
            ServerProto::WebSocket(id) => ServerStage::WebSocket(id),
        }
    }
}

/// The stage of a reply that may be lost.
pub open spec fn server_stage(proto: Option<ServerProto>) -> Option<ServerStage> {
    match proto {
        Some(proto) => Some(proto@),
        None => None,
    }
}

} // verus!
