//! One WebSocket, as the `tungstenite` crate runs it over a stream of events.

use crate::http::error::HttpError;
#[allow(unused_imports)]
use crate::http::error::HttpErrorView;
#[allow(unused_imports)]
use crate::http::origin::optional;
use crate::http::stream::EventIo;
#[allow(unused_imports)]
use crate::http::stream::EventIoView;
use crate::http::transport::TransportId;
use std::collections::VecDeque;
use std::io::ErrorKind;
use tungstenite::protocol::frame::CloseFrame;
use tungstenite::protocol::{Message, Role, WebSocket as TungsteniteSocket, WebSocketConfig};
use vstd::prelude::*;

verus! {

/// A WebSocket of the crate.
#[verifier::external_type_specification]
#[verifier::external_body]
#[verifier::reject_recursive_types(S)]
pub struct ExTungsteniteSocket<S>(TungsteniteSocket<S>);

/// A message of a WebSocket.
#[verifier::external_type_specification]
#[verifier::external_body]
pub struct ExMessage(Message);

/// What is said when a WebSocket is closed.
#[verifier::external_type_specification]
#[verifier::external_body]
pub struct ExCloseFrame(CloseFrame);

/// The limits of a WebSocket, in bytes.
#[derive(Debug, Clone, Copy, PartialEq, Eq, Structural)]
pub struct SocketLimits {
    pub read_buffer_size: usize,
    pub write_buffer_size: usize,
    pub max_write_buffer_size: usize,
    pub max_frame_size: Option<usize>,
    pub max_message_size: Option<usize>,
    pub accept_unmasked_frames: bool,
}

impl SocketLimits {
    /// The values used where nothing else is said.
    pub open spec fn usual() -> SocketLimits {
        SocketLimits {
            read_buffer_size: 8_192,
            write_buffer_size: 0,
            max_write_buffer_size: 1_048_576,
            max_frame_size: Some(2_097_152),
            max_message_size: Some(8_388_608),
            accept_unmasked_frames: false,
        }
    }

    /// More can be buffered for writing than is written at once.
    pub open spec fn ok(self) -> bool {
        self.max_write_buffer_size > self.write_buffer_size
    }

    /// Whether the values can be used.
    pub fn usable(self) -> (usable: bool)
        ensures
            usable == self.ok(),
    {
        self.max_write_buffer_size > self.write_buffer_size
    }
}

impl Default for SocketLimits {
    fn default() -> (limits: SocketLimits)
        ensures
            limits == SocketLimits::usual(),
            limits.ok(),
    {
        SocketLimits {
            read_buffer_size: 8_192,
            write_buffer_size: 0,
            max_write_buffer_size: 1_048_576,
            max_frame_size: Some(2_097_152),
            max_message_size: Some(8_388_608),
            accept_unmasked_frames: false,
        }
    }
}

/// Something that a WebSocket of the crate was asked for, what came of it, and what it left in the
/// stream below.
#[verifier::ext_equal]
pub enum Told {
    /// To read, with `io` in the stream below.
    Read { io: EventIoView, step: SocketStep, left: EventIoView },
    Send { message: Message, failed: Option<Seq<char>>, left: EventIoView },
    Close { frame: Option<CloseFrame>, failed: Option<Seq<char>>, left: EventIoView },
    Flush { failed: Option<Seq<char>>, left: EventIoView },
}

/// What is in the stream below a WebSocket of the crate.
pub uninterp spec fn stream_below(socket: TungsteniteSocket<EventIo>) -> EventIoView;

/// `WebSocket::get_mut`: the stream below a WebSocket. What is in it has a name.
#[verifier::external_body]
fn stream_of(socket: &mut TungsteniteSocket<EventIo>) -> (io: &mut EventIo)
    ensures
        io@ == stream_below(*old(socket)),
        stream_below(*final(socket)) == (*final(io))@,
{
    socket.get_mut()
}

/// A WebSocket of the crate over a stream of events.
pub struct Channel {
    socket: TungsteniteSocket<EventIo>,
    of: Ghost<Option<(Seq<u8>, SocketLimits)>>,
    told: Ghost<Seq<Told>>,
}

impl Channel {
    /// The WebSocket.
    pub closed spec fn inner(self) -> TungsteniteSocket<EventIo> {
        self.socket
    }

    /// What a server's end was made of: what had been read already, and its limits.
    pub closed spec fn of(self) -> Option<(Seq<u8>, SocketLimits)> {
        self.of@
    }

    /// What is in the stream.
    pub open spec fn io(self) -> EventIoView {
        stream_below(self.inner())
    }

    /// What it was asked for so far, and what came of it.
    pub closed spec fn told(self) -> Seq<Told> {
        self.told@
    }

    /// Takes a WebSocket of the crate, which was asked for nothing here yet.
    fn new(socket: TungsteniteSocket<EventIo>) -> (channel: Channel)
        ensures
            channel.inner() == socket,
            channel.of() is None,
            channel.told().len() == 0,
    {
        Channel { socket, of: Ghost(None), told: Ghost(Seq::empty()) }
    }

    /// Adds bytes that came in to the stream.
    fn push_input(&mut self, data: Vec<u8>)
        ensures
            final(self).io() == (EventIoView {
                input: old(self).io().input + data@,
                ..old(self).io()
            }),
            final(self).told() == old(self).told(),
            final(self).of() == old(self).of(),
    {
        stream_of(&mut self.socket).push_input(data);
    }

    /// Takes the bytes that are to be sent off the stream.
    fn take_output(&mut self) -> (data: Vec<u8>)
        ensures
            data@ == old(self).io().output,
            final(self).io() == (EventIoView { output: Seq::empty(), ..old(self).io() }),
            final(self).told() == old(self).told(),
            final(self).of() == old(self).of(),
    {
        stream_of(&mut self.socket).take_output()
    }
}

/// `WebSocket::from_partially_read`: the server's end of a WebSocket, on which `tail` has been
/// read already, over a stream in which nothing is. The crate takes no limits with which less can
/// be buffered for writing than is written at once. The crate's value is opaque: what it was made
/// of is recorded beside it.
#[verifier::external_body]
pub(crate) fn server_socket(tail: Vec<u8>, limits: SocketLimits) -> (channel: Channel)
    requires
        limits.ok(),
    ensures
        channel.of() == Some((tail@, limits)),
        channel.io() == (EventIoView { input: Seq::empty(), output: Seq::empty() }),
        channel.told().len() == 0,
{
    let config = WebSocketConfig::default()
        .read_buffer_size(limits.read_buffer_size)
        .write_buffer_size(limits.write_buffer_size)
        .max_write_buffer_size(limits.max_write_buffer_size)
        .max_frame_size(limits.max_frame_size)
        .max_message_size(limits.max_message_size)
        .accept_unmasked_frames(limits.accept_unmasked_frames);
    let io = EventIo { input: VecDeque::new(), output: Vec::new() };
    let of = Ghost(Some((tail@, limits)));
    let socket = TungsteniteSocket::from_partially_read(io, tail, Role::Server, Some(config));
    Channel { socket, of, told: Ghost(Seq::empty()) }
}

/// What came of reading from a WebSocket.
pub enum SocketRead {
    /// A message, with its length.
    Message { message: Message, size: usize },
    /// Nothing more is there.
    Blocked,
    /// It is closed, as both sides agreed.
    Closed,
    Failed(String),
}

/// `WebSocket::read`. What comes of it, and what it leaves in the stream, is recorded.
#[verifier::external_body]
fn read_socket(channel: &mut Channel) -> (read: SocketRead)
    ensures
        final(channel).told() == old(channel).told().push(
            Told::Read {
                io: old(channel).io(),
                step: socket_step(read),
                left: final(channel).io(),
            },
        ),
        final(channel).of() == old(channel).of(),
{
    match channel.socket.read() {
        Ok(message) => SocketRead::Message { size: message.len(), message },
        Err(tungstenite::Error::Io(error)) if error.kind() == ErrorKind::WouldBlock => {
            SocketRead::Blocked
        },
        Err(tungstenite::Error::ConnectionClosed) => SocketRead::Closed,
        Err(error) => SocketRead::Failed(error.to_string()),
    }
}

/// Why something failed, if it did.
pub open spec fn failure_of(result: Result<(), String>) -> Option<Seq<char>> {
    match result {
        Ok(()) => None,
        Err(reason) => Some(reason@),
    }
}

/// `WebSocket::send`. The error is the text of the crate's error.
#[verifier::external_body]
fn send_socket(channel: &mut Channel, message: Message) -> (result: Result<(), String>)
    ensures
        final(channel).told() == old(channel).told().push(
            Told::Send { message, failed: failure_of(result), left: final(channel).io() },
        ),
        final(channel).of() == old(channel).of(),
{
    channel.socket.send(message).map_err(|error| error.to_string())
}

/// `WebSocket::close`. The error is the text of the crate's error.
#[verifier::external_body]
fn close_socket(channel: &mut Channel, frame: Option<CloseFrame>) -> (result: Result<(), String>)
    ensures
        final(channel).told() == old(channel).told().push(
            Told::Close { frame, failed: failure_of(result), left: final(channel).io() },
        ),
        final(channel).of() == old(channel).of(),
{
    channel.socket.close(frame).map_err(|error| error.to_string())
}

/// `WebSocket::flush`. The error is the text of the crate's error.
#[verifier::external_body]
fn flush_socket(channel: &mut Channel) -> (result: Result<(), String>)
    ensures
        final(channel).told() == old(channel).told().push(
            Told::Flush { failed: failure_of(result), left: final(channel).io() },
        ),
        final(channel).of() == old(channel).of(),
{
    channel.socket.flush().map_err(|error| error.to_string())
}

/// A WebSocket.
#[derive(Debug, Clone, Copy, PartialEq, Eq, Structural, Hash)]
pub struct WebSocketId(pub u64);

impl WebSocketId {
    /// The number.
    pub fn raw(self) -> (raw: u64)
        ensures
            raw == self.0,
    {
        self.0
    }
}

/// How a WebSocket behaves.
#[derive(Debug)]
pub struct SocketOptions {
    pub protocol: Option<String>,
    pub input_high_water: usize,
    pub input_low_water: usize,
    pub close_timeout_ms: u64,
}

/// A message that nobody has taken yet, with its length.
pub struct QueuedMessage {
    pub message: Message,
    pub size: usize,
}

/// A WebSocket.
pub struct SharedSocket {
    pub id: WebSocketId,
    /// The service that may use it.
    pub owner: u32,
    pub transport: TransportId,
    pub options: SocketOptions,
    pub socket: Channel,
    pub messages: VecDeque<QueuedMessage>,
    /// The bytes of the messages that nobody has taken yet.
    pub queued_bytes: usize,
    /// Whether somebody waits for a message.
    pub waiting: bool,
    pub ended: bool,
    pub error: Option<HttpError>,
    /// Whether the connection was asked to receive nothing for a while.
    pub paused: bool,
}

/// What changes in a [`SharedSocket`].
#[verifier::ext_equal]
pub struct SocketView {
    pub messages: Seq<(Message, int)>,
    pub queued_bytes: int,
    pub waiting: bool,
    pub ended: bool,
    pub error: Option<HttpErrorView>,
    pub paused: bool,
}

impl View for QueuedMessage {
    type V = (Message, int);

    open spec fn view(&self) -> (Message, int) {
        (self.message, self.size as int)
    }
}

impl View for SharedSocket {
    type V = SocketView;

    open spec fn view(&self) -> SocketView {
        SocketView {
            messages: self.messages@.map_values(|m: QueuedMessage| m@),
            queued_bytes: self.queued_bytes as int,
            waiting: self.waiting,
            ended: self.ended,
            error: match self.error {
                Some(error) => Some(error@),
                None => None,
            },
            paused: self.paused,
        }
    }
}

/// One step of reading a WebSocket.
#[verifier::ext_equal]
pub enum SocketStep {
    Message(Message, int),
    Blocked,
    Closed,
    Failed(Seq<char>),
}

/// The step that a read is.
pub open spec fn socket_step(read: SocketRead) -> SocketStep {
    match read {
        SocketRead::Message { message, size } => SocketStep::Message(message, size as int),
        SocketRead::Blocked => SocketStep::Blocked,
        SocketRead::Closed => SocketStep::Closed,
        SocketRead::Failed(reason) => SocketStep::Failed(reason@),
    }
}

/// A number of bytes, or the largest that can be written.
pub open spec fn capped(size: int) -> int {
    if size > usize::MAX {
        usize::MAX as int
    } else {
        size
    }
}

impl SocketView {
    /// Before anything has come.
    pub open spec fn fresh() -> SocketView {
        SocketView {
            messages: Seq::empty(),
            queued_bytes: 0,
            waiting: false,
            ended: false,
            error: None,
            paused: false,
        }
    }

    /// After one more step of reading.
    pub open spec fn next(self, step: SocketStep) -> SocketView {
        match step {
            SocketStep::Message(message, size) => SocketView {
                messages: self.messages.push((message, size)),
                queued_bytes: capped(self.queued_bytes + size),
                ..self
            },
            SocketStep::Blocked => self,
            SocketStep::Closed => SocketView { ended: true, ..self },
            SocketStep::Failed(reason) => SocketView {
                ended: true,
                error: Some(HttpErrorView::WebSocket(reason)),
                ..self
            },
        }
    }

    /// After several steps of reading.
    pub open spec fn run(self, steps: Seq<SocketStep>) -> SocketView
        decreases steps.len(),
    {
        if steps.len() == 0 {
            self
        } else {
            self.run(steps.drop_last()).next(steps.last())
        }
    }

    /// Whether the connection is to receive nothing for a while.
    pub open spec fn to_pause(self, high: usize) -> bool {
        !self.paused && self.queued_bytes >= high
    }

    /// After what came in was read in these steps: too much makes the connection pause, and
    /// whoever waited waits no longer.
    pub open spec fn fed(self, steps: Seq<SocketStep>, high: usize) -> SocketView {
        let x = self.run(steps);
        SocketView { paused: x.paused || x.to_pause(high), waiting: false, ..x }
    }

    /// After the connection is gone.
    pub open spec fn closed(self, reason: Option<Seq<char>>) -> SocketView {
        SocketView {
            ended: true,
            error: match reason {
                Some(reason) => Some(HttpErrorView::Transport(reason)),
                None => self.error,
            },
            waiting: false,
            ..self
        }
    }

    /// After someone asked for a message.
    pub open spec fn asked(self, low: usize) -> SocketView {
        if self.messages.len() > 0 {
            let left = if self.queued_bytes >= self.messages[0].1 {
                self.queued_bytes - self.messages[0].1
            } else {
                0
            };
            SocketView {
                messages: self.messages.skip(1),
                queued_bytes: left,
                paused: self.paused && left > low,
                ..self
            }
        } else if self.error is Some {
            SocketView { error: None, ..self }
        } else if self.ended {
            self
        } else {
            SocketView { waiting: true, ..self }
        }
    }
}

/// Whether reading stops at a step.
pub open spec fn stops(step: SocketStep) -> bool {
    !(step is Message)
}

/// Steps that go on until one at which reading stops, or for as many turns as can be counted.
pub open spec fn whole_read(steps: Seq<SocketStep>) -> bool {
    &&& forall|i: int| 0 <= i < steps.len() - 1 ==> #[trigger] steps[i] is Message
    &&& steps.len() > 0 && stops(steps.last()) || steps.len() == u64::MAX
}

/// The WebSocket was asked to read, step by step, with `io` in the stream before the first.
pub open spec fn reads_told(
    before: Seq<Told>,
    after: Seq<Told>,
    io: EventIoView,
    steps: Seq<SocketStep>,
) -> bool {
    &&& after.len() == before.len() + steps.len()
    &&& after.take(before.len() as int) == before
    &&& forall|i: int| 0 <= i < steps.len() ==> read_told(after[before.len() + i], #[trigger] steps[i])
    &&& steps.len() > 0 ==> after[before.len() as int]->io == io
    &&& forall|i: int|
        before.len() < i < after.len() ==> (#[trigger] after[i])->io == after[i - 1]->Read_left
}

/// The WebSocket was asked to read, and that was the step.
pub open spec fn read_told(told: Told, step: SocketStep) -> bool {
    told is Read && told->step == step
}

/// What bytes that came in for a WebSocket lead to.
pub struct SocketNext {
    /// What the crate wrote in reply, to be sent.
    pub output: Vec<u8>,
    /// Whether the connection is to receive nothing for a while.
    pub pause: bool,
    /// Whether somebody who waits is to be told.
    pub wake: bool,
    /// Whether the connection is over.
    pub shutdown: bool,
}

/// The text of the crate's error, where there is one.
pub open spec fn error_text<T>(result: Result<T, HttpError>) -> Option<Seq<char>> {
    match result {
        Ok(_) => None,
        Err(error) => Some(error@->WebSocket_0),
    }
}

/// What is to be sent of what is left in a stream is handed out; nothing is where something
/// failed. `io` is what is in the stream then.
pub open spec fn handed_out(
    left: EventIoView,
    result: Result<Vec<u8>, HttpError>,
    io: EventIoView,
) -> bool {
    match result {
        Ok(data) => data@ == left.output && io == (EventIoView { output: Seq::empty(), ..left }),
        Err(_) => io == left,
    }
}

/// A WebSocket was asked to close, which left `closed` in the stream, and where that did not fail
/// it was flushed, which left `left`. What is to be sent then is handed out.
pub open spec fn closed_out(
    before: Channel,
    frame: Option<CloseFrame>,
    closed: EventIoView,
    left: EventIoView,
    result: Result<Option<Vec<u8>>, HttpError>,
    after: Channel,
) -> bool {
    let asked = before.told().push(Told::Close { frame, failed: None, left: closed });
    &&& {
        ||| result is Err && after.told() == before.told().push(
            Told::Close { frame, failed: error_text(result), left },
        )
        ||| after.told() == asked.push(Told::Flush { failed: error_text(result), left })
    }
    &&& match result {
        Ok(data) => {
            &&& data matches Some(data) && data@ == left.output
            &&& after.io() == (EventIoView { output: Seq::empty(), ..left })
        },
        Err(_) => after.io() == left,
    }
}

/// What someone who asks for a message is told.
pub enum RecvNext {
    /// A message; the connection is to receive again, or not.
    Message { message: Message, resume: bool },
    Failed(HttpError),
    /// No more will come.
    End,
    /// It has to be waited for.
    Wait,
}

/// What a [`RecvNext`] says.
#[verifier::ext_equal]
pub enum Handed {
    Message(Message),
    Failed(HttpErrorView),
    End,
    Wait,
}

/// What someone who asked for a message is told.
pub open spec fn recv_view(next: RecvNext) -> Handed {
    match next {
        RecvNext::Message { message, resume } => Handed::Message(message),
        RecvNext::Failed(error) => Handed::Failed(error@),
        RecvNext::End => Handed::End,
        RecvNext::Wait => Handed::Wait,
    }
}

impl SocketView {
    /// What someone who asks for a message is told.
    pub open spec fn handed(self) -> Handed {
        if self.messages.len() > 0 {
            Handed::Message(self.messages[0].0)
        } else {
            match self.error {
                Some(error) => Handed::Failed(error),
                None => if self.ended {
                    Handed::End
                } else {
                    Handed::Wait
                },
            }
        }
    }
}

impl SharedSocket {
    /// A WebSocket on which nothing has come yet.
    fn over(
        id: WebSocketId,
        owner: u32,
        transport: TransportId,
        channel: Channel,
        options: SocketOptions,
        reachable: bool,
    ) -> (result: Result<SharedSocket, HttpError>)
        ensures
            result is Ok <==> reachable,
            result matches Ok(shared) ==> {
                &&& shared@ == SocketView::fresh()
                &&& shared.socket == channel
                &&& shared.id == id
                &&& shared.owner == owner
                &&& shared.transport == transport
                &&& shared.options == options
            },
            result matches Err(error) ==> error@ == HttpErrorView::InvalidState(
                "传输服务未启动"@,
            ),
    {
        if !reachable {
            return Err(HttpError::InvalidState("传输服务未启动"));
        }
        let shared = SharedSocket {
            id,
            owner,
            transport,
            options,
            socket: channel,
            messages: VecDeque::new(),
            queued_bytes: 0,
            waiting: false,
            ended: false,
            error: None,
            paused: false,
        };
        assert(shared@ =~= SocketView::fresh());
        Ok(shared)
    }

    /// The client's end of a WebSocket, on which nothing has come yet.
    pub fn from_socket(
        id: WebSocketId,
        owner: u32,
        transport: TransportId,
        socket: TungsteniteSocket<EventIo>,
        options: SocketOptions,
        reachable: bool,
    ) -> (result: Result<SharedSocket, HttpError>)
        ensures
            result is Ok <==> reachable,
            result matches Ok(shared) ==> {
                &&& shared@ == SocketView::fresh()
                &&& shared.socket.inner() == socket
                &&& shared.socket.io() == stream_below(socket)
                &&& shared.socket.told().len() == 0
                &&& shared.id == id
                &&& shared.owner == owner
                &&& shared.transport == transport
                &&& shared.options == options
            },
            result matches Err(error) ==> error@ == HttpErrorView::InvalidState(
                "传输服务未启动"@,
            ),
    {
        SharedSocket::over(id, owner, transport, Channel::new(socket), options, reachable)
    }

    /// The server's end of a WebSocket, on which `tail` has been read already.
    pub fn server(
        id: WebSocketId,
        owner: u32,
        transport: TransportId,
        tail: Vec<u8>,
        limits: SocketLimits,
        options: SocketOptions,
        reachable: bool,
    ) -> (result: Result<SharedSocket, HttpError>)
        requires
            limits.ok(),
        ensures
            result is Ok <==> reachable,
            result matches Ok(shared) ==> {
                &&& shared@ == SocketView::fresh()
                &&& shared.socket.of() == Some((tail@, limits))
                &&& shared.socket.io() == (EventIoView {
                    input: Seq::empty(),
                    output: Seq::empty(),
                })
                &&& shared.socket.told().len() == 0
                &&& shared.id == id
                &&& shared.owner == owner
                &&& shared.transport == transport
                &&& shared.options == options
            },
            result matches Err(error) ==> error@ == HttpErrorView::InvalidState(
                "传输服务未启动"@,
            ),
    {
        let channel = server_socket(tail, limits);
        SharedSocket::over(id, owner, transport, channel, options, reachable)
    }

    /// What does not change.
    pub open spec fn same_frame(self, other: SharedSocket) -> bool {
        &&& self.id == other.id
        &&& self.owner == other.owner
        &&& self.transport == other.transport
        &&& self.options == other.options
        &&& self.socket.of() == other.socket.of()
    }

    /// Only the service that made the WebSocket may use it.
    pub fn check_owner(&self, service: u32) -> (result: Result<(), HttpError>)
        ensures
            result is Ok <==> self.owner == service,
            result matches Err(error) ==> error@ == HttpErrorView::InvalidState(
                "WebSocket 只能由创建它的业务服务操作"@,
            ),
    {
        if self.owner != service {
            return Err(HttpError::InvalidState("WebSocket 只能由创建它的业务服务操作"));
        }
        Ok(())
    }

    /// Takes note of what was read; whether more can be read.
    pub fn took(&mut self, read: SocketRead) -> (more: bool)
        ensures
            final(self)@ == old(self)@.next(socket_step(read)),
            final(self).same_frame(*old(self)),
            final(self).socket == old(self).socket,
            more == !stops(socket_step(read)),
    {
        let ghost before = self@;
        let ghost step = socket_step(read);
        let more = match read {
            SocketRead::Message { message, size } => {
                self.queued_bytes = self.queued_bytes.saturating_add(size);
                self.messages.push_back(QueuedMessage { message, size });
                assert(self@.messages =~= before.messages.push((message, size as int)));
                true
            },
            SocketRead::Blocked => false,
            SocketRead::Closed => {
                self.ended = true;
                false
            },
            SocketRead::Failed(reason) => {
                self.error = Some(HttpError::WebSocket(reason));
                self.ended = true;
                false
            },
        };
        assert(self@ =~= before.next(step));
        more
    }

    /// Bytes came in; the service that has the WebSocket is to be `service`. What the crate left
    /// to be sent when it was done with them is handed out.
    pub fn on_data(&mut self, service: u32, data: Vec<u8>) -> (result: Result<
        SocketNext,
        HttpError,
    >)
        ensures
            final(self).same_frame(*old(self)),
            old(self).owner != service ==> {
                &&& result matches Err(error) && error@ == HttpErrorView::InvalidState(
                    "WebSocket 只能由创建它的业务服务操作"@,
                )
                &&& final(self)@ == old(self)@
                &&& final(self).socket == old(self).socket
            },
            old(self).owner == service && old(self)@.ended ==> {
                &&& result matches Ok(next)
                &&& next.output@.len() == 0
                &&& !next.pause && !next.wake && !next.shutdown
                &&& final(self)@ == old(self)@
                &&& final(self).socket == old(self).socket
            },
            old(self).owner == service && !old(self)@.ended ==> {
                &&& result matches Ok(next)
                &&& exists|steps: Seq<SocketStep>|
                    {
                        &&& whole_read(steps)
                        &&& final(self)@ == #[trigger] old(self)@.fed(
                            steps,
                            old(self).options.input_high_water,
                        )
                        &&& next.pause == old(self)@.run(steps).to_pause(
                            old(self).options.input_high_water,
                        )
                        &&& next.wake == old(self)@.waiting
                        &&& next.shutdown == old(self)@.run(steps).ended
                        &&& reads_told(
                            old(self).socket.told(),
                            final(self).socket.told(),
                            EventIoView {
                                input: old(self).socket.io().input + data@,
                                ..old(self).socket.io()
                            },
                            steps,
                        )
                        &&& next.output@ == final(self).socket.told().last()->Read_left.output
                        &&& final(self).socket.io() == (EventIoView {
                            output: Seq::empty(),
                            ..final(self).socket.told().last()->Read_left
                        })
                    }
            },
    {
        match self.check_owner(service) {
            Err(error) => {
                return Err(error);
            },
            Ok(()) => {},
        }
        if self.ended {
            return Ok(
                SocketNext { output: Vec::new(), pause: false, wake: false, shutdown: false },
            );
        }
        let ghost before = self@;
        let ghost told = self.socket.told();
        let ghost io = EventIoView { input: self.socket.io().input + data@, ..self.socket.io() };
        self.socket.push_input(data);
        assert(self@ =~= before);
        assert(self.socket.io() == io);
        assert(told.take(told.len() as int) =~= told);
        let ghost mut steps: Seq<SocketStep> = Seq::empty();
        let mut more = true;
        let mut turns: u64 = u64::MAX;
        while more && turns > 0
            invariant
                steps.len() + turns == u64::MAX,
                self.same_frame(*old(self)),
                reads_told(told, self.socket.told(), io, steps),
                steps.len() == 0 ==> self.socket.io() == io,
                steps.len() > 0 ==> self.socket.io() == self.socket.told().last()->Read_left,
                self@ == before.run(steps),
                !before.ended,
                more ==> forall|i: int| 0 <= i < steps.len() ==> #[trigger] steps[i] is Message,
                !more ==> {
                    &&& steps.len() > 0
                    &&& stops(steps.last())
                    &&& forall|i: int| 0 <= i < steps.len() - 1 ==> #[trigger] steps[i] is Message
                },
            decreases turns,
        {
            let ghost held = self@;
            let ghost earlier = self.socket.told();
            let read = read_socket(&mut self.socket);
            assert(self@ =~= held);
            let ghost step = socket_step(read);
            more = self.took(read);
            turns -= 1;
            proof {
                let longer = steps.push(step);
                assert(longer.drop_last() =~= steps);
                assert(self.socket.told().take(told.len() as int) =~= earlier.take(
                    told.len() as int,
                ));
                assert forall|i: int| 0 <= i < longer.len() implies read_told(
                    self.socket.told()[told.len() + i],
                    #[trigger] longer[i],
                ) by {
                    if i < steps.len() {
                        assert(read_told(earlier[told.len() + i], steps[i]));
                    }
                }
                steps = longer;
            }
        }
        assert(whole_read(steps));
        let ghost end = self@;
        let output = self.socket.take_output();
        assert(self@ =~= end);
        let shutdown = self.ended;
        let pause = !self.paused && self.queued_bytes >= self.options.input_high_water;
        if pause {
            self.paused = true;
        }
        let wake = self.waiting;
        self.waiting = false;
        proof {
            lemma_reading_keeps(before, steps);
        }
        assert(self@ =~= before.fed(steps, old(self).options.input_high_water));
        Ok(SocketNext { output, pause, wake, shutdown })
    }

    /// The connection is gone, and perhaps it is known why; whether somebody who waits is to be
    /// told.
    pub fn on_closed(&mut self, reason: Option<String>) -> (wake: bool)
        ensures
            final(self)@ == old(self)@.closed(optional(reason)),
            final(self).same_frame(*old(self)),
            wake == old(self)@.waiting,
            final(self).socket == old(self).socket,
    {
        let ghost before = self@;
        let ghost text = optional(reason);
        self.ended = true;
        if let Some(reason) = reason {
            self.error = Some(HttpError::Transport(reason));
        }
        let wake = self.waiting;
        self.waiting = false;
        assert(self@ =~= before.closed(text));
        wake
    }

    /// Someone asks for a message. What was received before the end is handed out before it.
    pub fn recv(&mut self, service: u32) -> (result: Result<RecvNext, HttpError>)
        ensures
            final(self).same_frame(*old(self)),
            old(self).owner != service ==> {
                &&& result matches Err(error) && error@ == HttpErrorView::InvalidState(
                    "WebSocket 只能由创建它的业务服务操作"@,
                )
                &&& final(self)@ == old(self)@
            },
            old(self).owner == service ==> {
                &&& result matches Ok(next)
                &&& final(self)@ == old(self)@.asked(old(self).options.input_low_water)
                &&& recv_view(next) == old(self)@.handed()
                &&& match next {
                    RecvNext::Message { message, resume } => {
                        &&& old(self)@.messages.len() > 0
                        &&& message == old(self)@.messages[0].0
                        &&& resume == (old(self)@.paused && !final(self)@.paused)
                    },
                    RecvNext::Failed(error) => {
                        &&& old(self)@.messages.len() == 0
                        &&& old(self)@.error == Some(error@)
                    },
                    RecvNext::End => {
                        &&& old(self)@.messages.len() == 0
                        &&& old(self)@.error is None
                        &&& old(self)@.ended
                    },
                    RecvNext::Wait => {
                        &&& old(self)@.messages.len() == 0
                        &&& old(self)@.error is None
                        &&& !old(self)@.ended
                    },
                }
            },
            final(self).socket == old(self).socket,
    {
        match self.check_owner(service) {
            Err(error) => {
                return Err(error);
            },
            Ok(()) => {},
        }
        let ghost before = self@;
        let low: usize = self.options.input_low_water;
        match self.messages.pop_front() {
            Some(QueuedMessage { message, size }) => {
                assert(before.messages[0] == (message, size as int));
                assert(self@.messages =~= before.messages.skip(1));
                self.queued_bytes = self.queued_bytes.saturating_sub(size);
                let resume = self.paused && self.queued_bytes <= low;
                if resume {
                    self.paused = false;
                }
                assert(self@ =~= before.asked(low));
                return Ok(RecvNext::Message { message, resume });
            },
            None => {},
        }
        match self.error.take() {
            Some(error) => {
                assert(self@ =~= before.asked(low));
                Ok(RecvNext::Failed(error))
            },
            None => {
                if self.ended {
                    assert(self@ =~= before.asked(low));
                    Ok(RecvNext::End)
                } else {
                    self.waiting = true;
                    assert(self@ =~= before.asked(low));
                    Ok(RecvNext::Wait)
                }
            },
        }
    }

    /// Sends a message: the bytes to send for it, which are what the crate left to be sent.
    pub fn send(&mut self, service: u32, message: Message) -> (result: Result<Vec<u8>, HttpError>)
        ensures
            final(self).same_frame(*old(self)),
            final(self)@ == old(self)@,
            old(self).owner != service ==> (result matches Err(error) && error@
                == HttpErrorView::InvalidState("WebSocket 只能由创建它的业务服务操作"@)),
            old(self).owner == service && old(self)@.ended ==> (result matches Err(error) && error@
                == HttpErrorView::BodyClosed),
            old(self).owner == service && !old(self)@.ended ==> {
                &&& result matches Err(error) ==> error@ is WebSocket
                &&& exists|left: EventIoView|
                    {
                        &&& final(self).socket.told() == old(self).socket.told().push(
                            Told::Send { message, failed: error_text(result), left },
                        )
                        &&& #[trigger] handed_out(left, result, final(self).socket.io())
                    }
            },
            old(self).owner != service || old(self)@.ended ==> final(self).socket == old(
                self).socket,
    {
        match self.check_owner(service) {
            Err(error) => {
                return Err(error);
            },
            Ok(()) => {},
        }
        if self.ended {
            return Err(HttpError::BodyClosed);
        }
        let sent = send_socket(&mut self.socket, message);
        let ghost left = self.socket.io();
        let result = match sent {
            Err(reason) => Err(HttpError::WebSocket(reason)),
            Ok(()) => Ok(self.socket.take_output()),
        };
        assert(self@ =~= old(self)@);
        assert(handed_out(left, result, self.socket.io()));
        result
    }

    /// Begins to close the WebSocket: the bytes to send for it, or nothing where it is closed
    /// already. They are what the crate left to be sent.
    pub fn close(&mut self, service: u32, frame: Option<CloseFrame>) -> (result: Result<
        Option<Vec<u8>>,
        HttpError,
    >)
        ensures
            final(self).same_frame(*old(self)),
            final(self)@ == old(self)@,
            old(self).owner != service ==> (result matches Err(error) && error@
                == HttpErrorView::InvalidState("WebSocket 只能由创建它的业务服务操作"@)),
            old(self).owner == service && old(self)@.ended ==> result matches Ok(None),
            old(self).owner == service && !old(self)@.ended ==> {
                &&& !(result matches Ok(None))
                &&& result matches Err(error) ==> error@ is WebSocket
                &&& exists|closed: EventIoView, left: EventIoView| #[trigger]
                    closed_out(
                        old(self).socket,
                        frame,
                        closed,
                        left,
                        result,
                        final(self).socket,
                    )
            },
            old(self).owner != service || old(self)@.ended ==> final(self).socket == old(
                self).socket,
    {
        match self.check_owner(service) {
            Err(error) => {
                return Err(error);
            },
            Ok(()) => {},
        }
        if self.ended {
            return Ok(None);
        }
        let asked = close_socket(&mut self.socket, frame);
        let ghost closed = self.socket.io();
        if let Err(reason) = asked {
            let result = Err(HttpError::WebSocket(reason));
            assert(self@ =~= old(self)@);
            assert(closed_out(old(self).socket, frame, closed, closed, result, self.socket));
            return result;
        }
        let flushed = flush_socket(&mut self.socket);
        let ghost left = self.socket.io();
        let result = match flushed {
            Err(reason) => Err(HttpError::WebSocket(reason)),
            Ok(()) => Ok(Some(self.socket.take_output())),
        };
        assert(self@ =~= old(self)@);
        assert(closed_out(old(self).socket, frame, closed, left, result, self.socket));
        result
    }

    /// Whether the other side took too long to close: the connection is then closed without it.
    pub fn close_overdue(&self, waited_ms: u64) -> (overdue: bool)
        ensures
            overdue == (!self@.ended && waited_ms >= self.options.close_timeout_ms),
    {
        !self.ended && waited_ms >= self.options.close_timeout_ms
    }
}

/// Reading changes neither whether the connection is paused nor whether somebody waits.
proof fn lemma_reading_keeps(socket: SocketView, steps: Seq<SocketStep>)
    ensures
        socket.run(steps).paused == socket.paused,
        socket.run(steps).waiting == socket.waiting,
    decreases steps.len(),
{
    if steps.len() > 0 {
        lemma_reading_keeps(socket, steps.drop_last());
    }
}

/// Messages that came before the connection failed are handed out before its error is.
pub proof fn law_messages_come_before_the_end(socket: SocketView, reason: Option<Seq<char>>, low: usize)
    requires
        socket.messages.len() > 0,
    ensures
        socket.closed(reason).asked(low).messages == socket.messages.skip(1),
        socket.closed(reason).asked(low).error == socket.closed(reason).error,
{
}

/// The error of a connection is told once.
pub proof fn law_the_error_is_told_once(socket: SocketView, low: usize)
    requires
        socket.messages.len() == 0,
        socket.error is Some,
    ensures
        socket.asked(low).error is None,
        socket.asked(low).ended == socket.ended,
{
}

} // verus!
