//! The client's side of the protocol, as the `ureq-proto` crate runs it.
//!
//! A call is a value of that crate and stays closed to the library: what it takes and hands out is
//! turned into plain values here, one function of the crate at a time.

use crate::text::same_text;
use ureq_proto::client::state::{
    Await100, Cleanup, Prepare, RecvBody, RecvResponse, Redirect, SendBody, SendRequest,
};
use ureq_proto::client::{
    Await100Result, Call, RecvBodyResult, RecvResponseResult, SendRequestResult,
};
use ureq_proto::http::{HeaderMap, Request, Response, Version};
use ureq_proto::BodyMode;
use vstd::prelude::*;

verus! {

/// A request and its response, at one stage of the protocol.
#[verifier::external_type_specification]
#[verifier::external_body]
#[verifier::reject_recursive_types(S)]
pub struct ExCall<S>(Call<S>);

/// The stage before anything is sent.
#[verifier::external_type_specification]
#[verifier::external_body]
pub struct ExPrepare(Prepare);

/// The stage in which the request's head is sent.
#[verifier::external_type_specification]
#[verifier::external_body]
pub struct ExSendRequest(SendRequest);

/// The stage in which the server says whether it wants the body.
#[verifier::external_type_specification]
#[verifier::external_body]
pub struct ExAwait100(Await100);

/// The stage in which the request's body is sent.
#[verifier::external_type_specification]
#[verifier::external_body]
pub struct ExSendBody(SendBody);

/// The stage in which the response's head is awaited.
#[verifier::external_type_specification]
#[verifier::external_body]
pub struct ExRecvResponse(RecvResponse);

/// The stage in which the response's body is received.
#[verifier::external_type_specification]
#[verifier::external_body]
pub struct ExRecvBody(RecvBody);

/// The stage in which a redirection could be followed.
#[verifier::external_type_specification]
#[verifier::external_body]
pub struct ExRedirect(Redirect);

/// The last stage.
#[verifier::external_type_specification]
#[verifier::external_body]
pub struct ExCleanup(Cleanup);

/// The head of a response.
#[verifier::external_type_specification]
#[verifier::external_body]
#[verifier::reject_recursive_types(T)]
pub struct ExResponse<T>(Response<T>);

/// What the `http` crate says against a method and an address of a request; nothing where it
/// takes both.
pub uninterp spec fn request_fault(method: Seq<char>, uri: Seq<char>) -> Option<Seq<char>>;

/// A request as the protocol is given it.
#[verifier::ext_equal]
pub struct RequestView {
    pub method: Seq<char>,
    pub uri: Seq<char>,
    pub headers: HeaderMap,
}

/// A call whose head is not sent yet.
#[verifier::reject_recursive_types(S)]
pub struct Draft<S> {
    call: Call<S>,
    of: Ghost<Option<RequestView>>,
    written: Ghost<Seq<u8>>,
}

impl<S> Draft<S> {
    /// The call.
    pub closed spec fn call(self) -> Call<S> {
        self.call
    }

    /// The request, where it is known.
    pub closed spec fn of(self) -> Option<RequestView> {
        self.of@
    }

    /// What was written of the head so far.
    pub closed spec fn written(self) -> Seq<u8> {
        self.written@
    }

    /// A call whose request is not known.
    pub fn unknown(call: Call<S>) -> (draft: Draft<S>)
        ensures
            draft.call() == call,
            draft.of() is None,
            draft.written().len() == 0,
    {
        Draft { call, of: Ghost(None), written: Ghost(Seq::empty()) }
    }
}

/// The head that the protocol writes for a request.
pub uninterp spec fn head_bytes(method: Seq<char>, uri: Seq<char>, headers: HeaderMap) -> Seq<u8>;

/// What speaks against a call, if anything does.
pub open spec fn fault_of(call: Result<Draft<Prepare>, String>) -> Option<Seq<char>> {
    match call {
        Ok(_) => None,
        Err(reason) => Some(reason@),
    }
}

/// The call that `Call::new` makes of a request.
pub uninterp spec fn call_for(method: Seq<char>, uri: Seq<char>, headers: HeaderMap) -> Call<
    Prepare,
>;

/// Builds an `http::Request` and hands it to `Call::new`, which takes every request. Whether it
/// can be built rests on method and address alone; the error is the text of the crate's error,
/// and has a name. The call rests on the request, and has a name. Nothing is written yet.
#[verifier::external_body]
pub(crate) fn new_call(method: &str, uri: &str, headers: HeaderMap) -> (draft: Result<
    Draft<Prepare>,
    String,
>)
    ensures
        fault_of(draft) == request_fault(method@, uri@),
        draft matches Ok(draft) ==> draft.written().len() == 0 && draft.of() == Some(
            RequestView { method: method@, uri: uri@, headers },
        ) && draft.call() == call_for(method@, uri@, headers),
{
    let of = Ghost(Some(RequestView { method: method@, uri: uri@, headers }));
    let built = Request::builder().method(method).uri(uri).version(Version::HTTP_11).body(());
    let mut request = built.map_err(|error| error.to_string())?;
    *request.headers_mut() = headers;
    let call = Call::new(request).map_err(|error| error.to_string())?;
    Ok(Draft { call, of, written: Ghost(Seq::empty()) })
}

/// The call that sends the head.
pub uninterp spec fn begun(call: Call<Prepare>) -> Call<SendRequest>;

/// `Call::<Prepare>::proceed`, which rests on the call alone.
#[verifier::external_body]
pub(crate) fn begin(draft: Draft<Prepare>) -> (next: Draft<SendRequest>)
    ensures
        next.call() == begun(draft.call()),
        next.of() == draft.of(),
        next.written() == draft.written(),
{
    Draft { call: draft.call.proceed(), of: draft.of, written: draft.written }
}

/// Whether a whole head has been written.
pub uninterp spec fn head_whole(call: Call<SendRequest>) -> bool;

/// `Call::<SendRequest>::can_proceed`: whether the whole head has been written, which rests on
/// the call alone. What was written then rests on the request alone, and has a name.
#[verifier::external_body]
pub(crate) fn head_written(draft: &Draft<SendRequest>) -> (done: bool)
    ensures
        done == head_whole(draft.call()),
        done ==> (draft.of() matches Some(of) ==> draft.written() == head_bytes(
            of.method,
            of.uri,
            of.headers,
        )),
{
    draft.call.can_proceed()
}

/// The method of a call.
pub uninterp spec fn method_of(call: Call<SendRequest>) -> Seq<char>;

/// `Call::<SendRequest>::method`, as text.
#[verifier::external_body]
fn head_method(draft: &Draft<SendRequest>) -> (method: String)
    ensures
        method@ == method_of(draft.call()),
{
    draft.call.method().as_str().to_owned()
}

/// Whether the address of a call has an authority.
pub uninterp spec fn has_authority(call: Call<SendRequest>) -> bool;

/// `Call::<SendRequest>::uri`, and `Uri::authority` of it: whether there is one.
#[verifier::external_body]
fn head_authority(draft: &Draft<SendRequest>) -> (has: bool)
    ensures
        has == has_authority(draft.call()),
{
    draft.call.uri().authority().is_some()
}

/// A call has something to name in its first line: a CONNECT names an authority.
pub open spec fn addressed(call: Call<SendRequest>) -> bool {
    method_of(call) != "CONNECT"@ || has_authority(call)
}

/// Whether a call has something to name in its first line.
pub(crate) fn is_addressed(draft: &Draft<SendRequest>) -> (is: bool)
    ensures
        is == addressed(draft.call()),
{
    let method = head_method(draft);
    !same_text(method.as_str(), "CONNECT") || head_authority(draft)
}

/// What a part of a head that may have failed says.
pub open spec fn part_view(part: Result<Vec<u8>, String>) -> Result<Seq<u8>, Seq<char>> {
    match part {
        Ok(part) => Ok(part@),
        Err(reason) => Err(reason@),
    }
}

/// What `Call::<SendRequest>::write` puts into a buffer of `room` bytes, and the call after that.
pub uninterp spec fn head_write(call: Call<SendRequest>, room: int) -> (
    Result<Seq<u8>, Seq<char>>,
    Call<SendRequest>,
);

/// `Call::<SendRequest>::write` into a buffer of `room` bytes: the next part of the head, which
/// is no longer than the buffer. What comes out and the call after it rest on the call and the
/// buffer, and have a name. The first line of a CONNECT has to have an authority to name. Method
/// and address stay as they are.
#[verifier::external_body]
pub(crate) fn write_head(draft: &mut Draft<SendRequest>, room: usize) -> (part: Result<
    Vec<u8>,
    String,
>)
    requires
        addressed(old(draft).call()),
    ensures
        (part_view(part), final(draft).call()) == head_write(old(draft).call(), room as int),
        method_of(final(draft).call()) == method_of(old(draft).call()),
        has_authority(final(draft).call()) == has_authority(old(draft).call()),
        final(draft).of() == old(draft).of(),
        part matches Ok(part) ==> part@.len() <= room && final(draft).written() == old(
            draft).written() + part@,
{
    let mut output = vec![0; room];
    let used = draft.call.write(&mut output).map_err(|error| error.to_string())?;
    output.truncate(used);
    Ok(output)
}

/// A call that waits for the server to say whether it wants the body.
pub struct Awaiting {
    call: Call<Await100>,
}

impl Awaiting {
    /// The call.
    pub closed spec fn call(self) -> Call<Await100> {
        self.call
    }

    /// A call that waits.
    pub closed spec fn of(call: Call<Await100>) -> Awaiting {
        Awaiting { call }
    }

    #[verifier::type_invariant]
    spec fn waits(self) -> bool {
        awaiting(self.call)
    }

    /// A call, where it still waits.
    pub(crate) fn check(call: Call<Await100>) -> (result: Result<Awaiting, Call<Await100>>)
        ensures
            match result {
                Ok(own) => awaiting(call) && own == Awaiting::of(call),
                Err(own) => !awaiting(call) && own == call,
            },
    {
        if still_awaits(&call) {
            Ok(Awaiting { call })
        } else {
            Err(call)
        }
    }

    /// The call.
    pub(crate) fn into_call(self) -> (call: Call<Await100>)
        ensures
            call == self.call(),
    {
        self.call
    }
}

/// A call that awaits the head of the response, and has read no whole one yet.
pub struct Receiving {
    call: Call<RecvResponse>,
    /// Whether it has read a whole head.
    headed: Ghost<bool>,
}

impl Receiving {
    /// The call.
    pub closed spec fn call(self) -> Call<RecvResponse> {
        self.call
    }

    /// Whether it has read a whole head.
    pub closed spec fn headed(self) -> bool {
        self.headed@
    }

    #[verifier::type_invariant]
    spec fn none_yet(self) -> bool {
        !self.headed@
    }
}

/// Where a call goes when its head is written.
pub enum AfterHead {
    Await100(Awaiting),
    SendBody(Call<SendBody>),
    RecvResponse(Receiving),
    Stuck,
    Failed(String),
}

/// Where a call goes from there.
pub uninterp spec fn send_request_next(call: Call<SendRequest>) -> AfterHead;

/// `Call::<SendRequest>::proceed`, which is possible when the whole head has been written. Where
/// it goes rests on the call alone. A call that has to await leave does await it, and one that
/// awaits the response has read nothing of it.
#[verifier::external_body]
pub(crate) fn after_head(draft: Draft<SendRequest>) -> (next: AfterHead)
    ensures
        next == send_request_next(draft.call()),
        next is Stuck <==> !head_whole(draft.call()),
        !(next is Failed),
        next matches AfterHead::Await100(call) ==> awaiting(call.call()),
        next matches AfterHead::RecvResponse(call) ==> !call.headed(),
{
    match draft.call.proceed() {
        Ok(Some(SendRequestResult::Await100(call))) => AfterHead::Await100(Awaiting { call }),
        Ok(Some(SendRequestResult::SendBody(call))) => AfterHead::SendBody(call),
        Ok(Some(SendRequestResult::RecvResponse(call))) => AfterHead::RecvResponse(
            Receiving { call, headed: Ghost(false) },
        ),
        Ok(None) => AfterHead::Stuck,
        Err(error) => AfterHead::Failed(error.to_string()),
    }
}

/// What came of writing a part of a body: how many of its bytes were taken, and what to send for
/// them.
#[derive(Debug)]
pub enum BodyWrite {
    Wrote { used: usize, data: Vec<u8> },
    Failed(String),
}

/// What a result of writing says: how many bytes were taken and what to send for them, or the
/// error.
pub open spec fn written(result: BodyWrite) -> Result<(int, Seq<u8>), Seq<char>> {
    match result {
        BodyWrite::Wrote { used, data } => Ok((used as int, data@)),
        BodyWrite::Failed(reason) => Err(reason@),
    }
}

/// What `Call::<SendBody>::write` makes of a chunk and a buffer of `room` bytes, and the call
/// after that.
pub uninterp spec fn body_write(call: Call<SendBody>, chunk: Seq<u8>, room: int) -> (
    Result<(int, Seq<u8>), Seq<char>>,
    Call<SendBody>,
);

/// `Call::<SendBody>::write` into a buffer of `room` bytes. It takes no more than it was given
/// and gives no more than the buffer holds. What comes out and the call after it rest on the
/// call, the chunk and the buffer, and have a name.
#[verifier::external_body]
pub(crate) fn write_body(call: &mut Call<SendBody>, chunk: &[u8], room: usize) -> (result:
    BodyWrite)
    ensures
        (written(result), *final(call)) == body_write(*old(call), chunk@, room as int),
        result matches BodyWrite::Wrote { used, data } ==> used <= chunk@.len() && data@.len()
            <= room,
{
    let mut output = vec![0; room];
    match call.write(chunk, &mut output) {
        Ok((used, written)) => {
            output.truncate(written);
            BodyWrite::Wrote { used, data: output }
        },
        Err(error) => BodyWrite::Failed(error.to_string()),
    }
}

/// Whether a whole body has been written.
pub uninterp spec fn body_whole(call: Call<SendBody>) -> bool;

/// `Call::<SendBody>::can_proceed`: whether the whole body has been written, which rests on the
/// call alone.
#[verifier::external_body]
pub(crate) fn body_written(call: &Call<SendBody>) -> (done: bool)
    ensures
        done == body_whole(*call),
{
    call.can_proceed()
}

/// The call that awaits the response, where the whole body has been written.
pub uninterp spec fn send_body_next(call: Call<SendBody>) -> Option<Receiving>;

/// `Call::<SendBody>::proceed`, which is possible when the whole body has been written. Nothing
/// of the response has been read then.
#[verifier::external_body]
pub(crate) fn after_body(call: Call<SendBody>) -> (next: Option<Receiving>)
    ensures
        next == send_body_next(call),
        next is Some <==> body_whole(call),
        next matches Some(call) ==> !call.headed(),
{
    call.proceed().map(|call| Receiving { call, headed: Ghost(false) })
}

/// How many bytes of an input `Call::<Await100>::try_read_100` is done with, or its error; and
/// the call after that.
pub uninterp spec fn continue_read(call: Call<Await100>, input: Seq<u8>) -> (
    Result<int, Seq<char>>,
    Call<Await100>,
);

/// What a number of bytes that may have failed says.
pub open spec fn used_of(used: Result<usize, String>) -> Result<int, Seq<char>> {
    match used {
        Ok(used) => Ok(used as int),
        Err(reason) => Err(reason@),
    }
}

/// `Call::<Await100>::try_read_100`: how many bytes of the input it is done with. That and the
/// call after it rest on the call and the input, and have a name. The server must not have said
/// yet whether it wants the body.
#[verifier::external_body]
fn try_read_100(call: &mut Call<Await100>, input: &[u8]) -> (used: Result<usize, String>)
    requires
        awaiting(*old(call)),
    ensures
        (used_of(used), *final(call)) == continue_read(*old(call), input@),
        used matches Ok(used) ==> used <= input@.len(),
{
    call.try_read_100(input).map_err(|error| error.to_string())
}

/// How many bytes of the input a call that waits is done with, and the call after that.
pub(crate) fn read_100(call: Awaiting, input: &[u8]) -> (read: (
    Result<usize, String>,
    Call<Await100>,
))
    ensures
        (used_of(read.0), read.1) == continue_read(call.call(), input@),
        read.0 matches Ok(used) ==> used <= input@.len(),
{
    proof {
        use_type_invariant(&call);
    }
    let mut call = call.call;
    let used = try_read_100(&mut call, input);
    (used, call)
}

/// Whether the server has not said yet if it wants the body.
pub uninterp spec fn awaiting(call: Call<Await100>) -> bool;

/// `Call::<Await100>::can_keep_await_100`: whether the server has not said yet, which rests on
/// the call alone.
#[verifier::external_body]
pub(crate) fn still_awaits(call: &Call<Await100>) -> (awaits: bool)
    ensures
        awaits == awaiting(*call),
{
    call.can_keep_await_100()
}

/// Where a call goes from the stage in which the server says whether it wants the body.
pub enum AfterAwait {
    SendBody(Call<SendBody>),
    RecvResponse(Receiving),
    Failed(String),
}

/// Where a call goes from there.
pub uninterp spec fn await_next(call: Call<Await100>) -> AfterAwait;

/// `Call::<Await100>::proceed`, which is always possible. Where it goes rests on the call alone.
/// One that awaits the response has read nothing of it.
#[verifier::external_body]
pub(crate) fn after_await(call: Call<Await100>) -> (next: AfterAwait)
    ensures
        next == await_next(call),
        !(next is Failed),
        next matches AfterAwait::RecvResponse(call) ==> !call.headed(),
{
    match call.proceed() {
        Ok(Await100Result::SendBody(call)) => AfterAwait::SendBody(call),
        Ok(Await100Result::RecvResponse(call)) => AfterAwait::RecvResponse(
            Receiving { call, headed: Ghost(false) },
        ),
        Err(error) => AfterAwait::Failed(error.to_string()),
    }
}

/// What came of reading the head of a response.
pub enum HeadRead {
    /// The head is whole, and so many bytes of the input belong to it.
    Whole { used: usize, response: Response<()>, call: Call<RecvResponse> },
    /// More has to come first.
    Partial(Receiving),
    /// It cannot be read.
    Failed(String),
}

/// What `Call::<RecvResponse>::try_response` makes of an input, with the call after that.
pub uninterp spec fn response_read(call: Call<RecvResponse>, input: Seq<u8>) -> HeadRead;

/// `Call::<RecvResponse>::try_response`, with no allowance for heads that break off. What comes
/// out and the call after it rest on the call and the input, and have a name. With a whole head
/// the call can go on, and must not be asked again.
#[verifier::external_body]
fn try_head(call: Receiving, input: &[u8]) -> (read: HeadRead)
    requires
        !call.headed(),
    ensures
        read == response_read(call.call(), input@),
        read matches HeadRead::Whole { used, response, call } ==> used <= input@.len(),
        read matches HeadRead::Whole { used, response, call } ==> !(response_next(call) is Stuck),
        read matches HeadRead::Partial(call) ==> !call.headed(),
{
    let mut call = call.call;
    match call.try_response(input, false) {
        Ok((used, Some(response))) => HeadRead::Whole { used, response, call },
        Ok((_, None)) => HeadRead::Partial(Receiving { call, headed: Ghost(false) }),
        Err(error) => HeadRead::Failed(error.to_string()),
    }
}

/// What came of reading the head of a response.
pub(crate) fn read_head(call: Receiving, input: &[u8]) -> (read: HeadRead)
    ensures
        read == response_read(call.call(), input@),
        read matches HeadRead::Whole { used, response, call } ==> used <= input@.len(),
        read matches HeadRead::Whole { used, response, call } ==> !(response_next(call) is Stuck),
{
    proof {
        use_type_invariant(&call);
    }
    try_head(call, input)
}

/// Where a call goes when the head of the response is read.
pub enum AfterResponse {
    RecvBody(Call<RecvBody>),
    Redirect(Call<Redirect>),
    Cleanup(Call<Cleanup>),
    Stuck,
}

/// Where a call goes from there.
pub uninterp spec fn response_next(call: Call<RecvResponse>) -> AfterResponse;

/// `Call::<RecvResponse>::proceed`. Where it goes rests on the call alone.
#[verifier::external_body]
pub(crate) fn after_response(call: Call<RecvResponse>) -> (next: AfterResponse)
    ensures
        next == response_next(call),
{
    match call.proceed() {
        Some(RecvResponseResult::RecvBody(call)) => AfterResponse::RecvBody(call),
        Some(RecvResponseResult::Redirect(call)) => AfterResponse::Redirect(call),
        Some(RecvResponseResult::Cleanup(call)) => AfterResponse::Cleanup(call),
        None => AfterResponse::Stuck,
    }
}

/// What came of reading a part of a body: how many bytes of the input it is done with, and the
/// bytes of the body.
#[derive(Debug)]
pub enum BodyRead {
    Read { used: usize, data: Vec<u8> },
    Failed(String),
}

/// What a result of reading says: how many bytes are done with and the bytes of the body, or the
/// error.
pub open spec fn body_noted(result: BodyRead) -> Result<(int, Seq<u8>), Seq<char>> {
    match result {
        BodyRead::Read { used, data } => Ok((used as int, data@)),
        BodyRead::Failed(reason) => Err(reason@),
    }
}

/// What `Call::<RecvBody>::read` makes of an input and a buffer of `room` bytes, and the call
/// after that.
pub uninterp spec fn body_read(call: Call<RecvBody>, input: Seq<u8>, room: int) -> (
    Result<(int, Seq<u8>), Seq<char>>,
    Call<RecvBody>,
);

/// `Call::<RecvBody>::read` into a buffer of `room` bytes. It is done with no more than it was
/// given and gives no more than the buffer holds. What comes out and the call after it rest on
/// the call, the input and the buffer, and have a name.
#[verifier::external_body]
pub(crate) fn read_body(call: &mut Call<RecvBody>, input: &[u8], room: usize) -> (result: BodyRead)
    ensures
        (body_noted(result), *final(call)) == body_read(*old(call), input@, room as int),
        result matches BodyRead::Read { used, data } ==> used <= input@.len() && data@.len()
            <= room,
{
    let mut output = vec![0; room];
    match call.read(input, &mut output) {
        Ok((used, written)) => {
            output.truncate(written);
            BodyRead::Read { used, data: output }
        },
        Err(error) => BodyRead::Failed(error.to_string()),
    }
}

/// Whether a body may end here.
pub uninterp spec fn body_ends(call: Call<RecvBody>) -> bool;

/// `Call::<RecvBody>::can_proceed`: whether the body may end here, which rests on the call alone.
#[verifier::external_body]
pub(crate) fn body_may_end(call: &Call<RecvBody>) -> (may: bool)
    ensures
        may == body_ends(*call),
{
    call.can_proceed()
}

/// Whether a body lasts until the connection closes.
pub uninterp spec fn body_lasts(call: Call<RecvBody>) -> bool;

/// `Call::<RecvBody>::body_mode`: whether the body lasts until the connection closes, which rests
/// on the call alone.
#[verifier::external_body]
pub(crate) fn until_close(call: &Call<RecvBody>) -> (until: bool)
    ensures
        until == body_lasts(*call),
{
    matches!(call.body_mode(), BodyMode::CloseDelimited)
}

/// Where a call goes when the body of the response is read.
pub enum AfterRecvBody {
    Redirect(Call<Redirect>),
    Cleanup(Call<Cleanup>),
    Stuck,
}

/// Where a call goes from there.
pub uninterp spec fn recv_body_next(call: Call<RecvBody>) -> AfterRecvBody;

/// `Call::<RecvBody>::proceed`, which is possible when the body may end. Where it goes rests on
/// the call alone.
#[verifier::external_body]
pub(crate) fn after_recv_body(call: Call<RecvBody>) -> (next: AfterRecvBody)
    ensures
        next == recv_body_next(call),
        next is Stuck <==> !body_ends(call),
{
    match call.proceed() {
        Some(RecvBodyResult::Redirect(call)) => AfterRecvBody::Redirect(call),
        Some(RecvBodyResult::Cleanup(call)) => AfterRecvBody::Cleanup(call),
        None => AfterRecvBody::Stuck,
    }
}

/// The call where a redirection is not followed.
pub uninterp spec fn redirect_next(call: Call<Redirect>) -> Call<Cleanup>;

/// `Call::<Redirect>::proceed`: the redirection is not followed.
#[verifier::external_body]
pub(crate) fn after_redirect(call: Call<Redirect>) -> (next: Call<Cleanup>)
    ensures
        next == redirect_next(call),
{
    call.proceed()
}

/// Whether a call leaves a connection that has to be closed.
pub uninterp spec fn closes(call: Call<Cleanup>) -> bool;

/// `Call::<Cleanup>::must_close_connection`, which rests on the call alone.
#[verifier::external_body]
pub(crate) fn must_close(call: &Call<Cleanup>) -> (must: bool)
    ensures
        must == closes(*call),
{
    call.must_close_connection()
}

/// A call at the stage it has reached.
pub enum Proto {
    SendBody(Call<SendBody>),
    Await100(Awaiting),
    RecvResponse(Receiving),
    RecvBody(Call<RecvBody>),
    Done,
}

/// The stages of a call.
#[derive(Debug, Clone, Copy, PartialEq, Eq, Structural)]
pub enum Stage {
    SendBody,
    Await100,
    RecvResponse,
    RecvBody,
    Done,
}

impl View for Proto {
    type V = Stage;

    open spec fn view(&self) -> Stage {
        match *self {
            Proto::SendBody(_) => Stage::SendBody,
            Proto::Await100(_) => Stage::Await100,
            Proto::RecvResponse(_) => Stage::RecvResponse,
            Proto::RecvBody(_) => Stage::RecvBody,
            Proto::Done => Stage::Done,
        }
    }
}

/// The stage of a call that may be lost.
pub open spec fn stage_of(proto: Option<Proto>) -> Option<Stage> {
    match proto {
        Some(proto) => Some(proto@),
        None => None,
    }
}

} // verus!
