//! The client's side of the handshake that opens a WebSocket, as the `tungstenite` crate runs it
//! over a stream of events.

use crate::http::socket::SocketLimits;
use crate::http::stream::EventIo;
#[allow(unused_imports)]
use crate::http::stream::EventIoView;
use tungstenite::handshake::client::ClientHandshake;
use tungstenite::handshake::{HandshakeError, MidHandshake};
use tungstenite::protocol::{WebSocket as TungsteniteSocket, WebSocketConfig};
use ureq_proto::http::{HeaderMap, Request as HttpRequest};
use vstd::prelude::*;

verus! {

/// A handshake that is under way: the crate's `MidHandshake` of a `ClientHandshake`, whose limits
/// can be used.
#[verifier::external_body]
pub struct Handshaking {
    handshake: MidHandshake<ClientHandshake<EventIo>>,
}

/// The head of the response with which a server accepted a WebSocket.
pub struct HandshakeResponse {
    pub status: u16,
    pub headers: HeaderMap,
}

/// What came of going on with a handshake.
pub enum Shaken {
    /// More has to come first.
    Interrupted(Handshaking),
    Failed(String),
    Done { socket: TungsteniteSocket<EventIo>, response: HandshakeResponse },
}

/// What is in the stream below a handshake.
pub uninterp spec fn handshake_stream(handshake: Handshaking) -> EventIoView;

/// A handshake with something else in the stream below it.
pub uninterp spec fn handshake_over(handshake: Handshaking, io: EventIoView) -> Handshaking;

/// `MidHandshake::get_mut` and `HandshakeMachine::get_mut`: the stream below a handshake. What is
/// in it has a name, and so has the handshake when something else is in it.
#[verifier::external_body]
fn stream_of(handshake: &mut Handshaking) -> (io: &mut EventIo)
    ensures
        io@ == handshake_stream(*old(handshake)),
        *final(handshake) == handshake_over(*old(handshake), (*final(io))@),
        handshake_stream(*final(handshake)) == (*final(io))@,
{
    handshake.handshake.get_mut().get_mut()
}

/// The handshake that `ClientHandshake::start` makes of a request and limits, or why it makes
/// none.
pub uninterp spec fn handshake_started(request: HttpRequest<()>, limits: SocketLimits) -> Result<
    Handshaking,
    Seq<char>,
>;

/// What a handshake that may not have been started says.
pub open spec fn started_view(started: Result<Handshaking, String>) -> Result<
    Handshaking,
    Seq<char>,
> {
    match started {
        Ok(handshake) => Ok(handshake),
        Err(reason) => Err(reason@),
    }
}

/// `ClientHandshake::start` over a stream in which nothing is. The crate takes no limits with
/// which less can be buffered for writing than is written at once. What comes out rests on the
/// request and the limits, and has a name; the error is the text of the crate's error.
#[verifier::external_body]
pub(crate) fn start_handshake(request: HttpRequest<()>, limits: SocketLimits) -> (started: Result<
    Handshaking,
    String,
>)
    requires
        limits.ok(),
    ensures
        started_view(started) == handshake_started(request, limits),
        started matches Ok(handshake) ==> handshake_stream(handshake) == (EventIoView {
            input: Seq::empty(),
            output: Seq::empty(),
        }),
{
    let config = WebSocketConfig::default()
        .read_buffer_size(limits.read_buffer_size)
        .write_buffer_size(limits.write_buffer_size)
        .max_write_buffer_size(limits.max_write_buffer_size)
        .max_frame_size(limits.max_frame_size)
        .max_message_size(limits.max_message_size)
        .accept_unmasked_frames(limits.accept_unmasked_frames);
    match ClientHandshake::start(EventIo::default(), request, Some(config)) {
        Ok(handshake) => Ok(Handshaking { handshake }),
        Err(error) => Err(error.to_string()),
    }
}

/// What `MidHandshake::handshake` makes of a handshake.
pub uninterp spec fn shaken(handshake: Handshaking) -> Shaken;

/// `MidHandshake::handshake`: goes on with a handshake as far as what came in allows. What comes
/// of it rests on the handshake alone, and has a name; the error is the text of the crate's error.
/// Where nothing came in, the handshake does not come to its end.
#[verifier::external_body]
pub(crate) fn shake(handshake: Handshaking) -> (result: Shaken)
    ensures
        result == shaken(handshake),
        handshake_stream(handshake).input.len() == 0 ==> !(result is Done),
{
    match handshake.handshake.handshake() {
        Err(HandshakeError::Interrupted(handshake)) => Shaken::Interrupted(
            Handshaking { handshake },
        ),
        Err(HandshakeError::Failure(error)) => Shaken::Failed(error.to_string()),
        Ok((socket, response)) => {
            let (status, headers) = (response.status().as_u16(), response.headers().clone());
            Shaken::Done { socket, response: HandshakeResponse { status, headers } }
        },
    }
}

/// A handshake with bytes that came in.
pub open spec fn handshake_fed(handshake: Handshaking, data: Seq<u8>) -> Handshaking {
    let io = handshake_stream(handshake);
    handshake_over(handshake, EventIoView { input: io.input + data, ..io })
}

/// A handshake without the bytes that are to be sent for it.
pub open spec fn handshake_emptied(handshake: Handshaking) -> Handshaking {
    let io = handshake_stream(handshake);
    handshake_over(handshake, EventIoView { output: Seq::empty(), ..io })
}

impl Handshaking {
    /// Adds bytes that came in.
    pub(crate) fn push_input(&mut self, data: Vec<u8>)
        ensures
            *final(self) == handshake_fed(*old(self), data@),
    {
        stream_of(self).push_input(data);
    }

    /// Takes the bytes that are to be sent.
    pub(crate) fn take_output(&mut self) -> (data: Vec<u8>)
        ensures
            data@ == handshake_stream(*old(self)).output,
            *final(self) == handshake_emptied(*old(self)),
    {
        stream_of(self).take_output()
    }
}

} // verus!
