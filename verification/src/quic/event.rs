//! Identifiers of listeners, connections and streams, the events that owners
//! are sent, and the description of a connection.

use crate::text::{decimal, push_decimal};
use vstd::prelude::*;

verus! {

/// A listener.
#[derive(Debug, Clone, Copy, PartialEq, Eq, Structural, PartialOrd, Ord, Hash)]
pub struct QuicListenerId(pub u32);

/// A connection.
#[derive(Debug, Clone, Copy, PartialEq, Eq, Structural, PartialOrd, Ord, Hash)]
pub struct QuicConnectionId(pub u64);

/// A stream of a connection.
#[derive(Debug, Clone, Copy, PartialEq, Eq, Structural, PartialOrd, Ord, Hash)]
pub struct QuicStreamId(pub u64);

impl QuicListenerId {
    /// How the listener is written in messages.
    pub open spec fn name(self) -> Seq<char> {
        "quic-listener#"@ + decimal(self.0 as nat)
    }

    /// How the listener is written in messages.
    pub fn text(self) -> (text: String)
        ensures
            text@ == self.name(),
    {
        let mut text = "quic-listener#".to_owned();
        push_decimal(&mut text, self.0 as u64);
        text
    }
}

impl QuicConnectionId {
    /// How the connection is written in messages.
    pub open spec fn name(self) -> Seq<char> {
        "quic#"@ + decimal(self.0 as nat)
    }

    /// How the connection is written in messages.
    pub fn text(self) -> (text: String)
        ensures
            text@ == self.name(),
    {
        let mut text = "quic#".to_owned();
        push_decimal(&mut text, self.0);
        text
    }
}

impl QuicStreamId {
    /// How the stream is written in messages.
    pub open spec fn name(self) -> Seq<char> {
        "stream#"@ + decimal(self.0 as nat)
    }

    /// How the stream is written in messages.
    pub fn text(self) -> (text: String)
        ensures
            text@ == self.name(),
    {
        let mut text = "stream#".to_owned();
        push_decimal(&mut text, self.0);
        text
    }
}

/// Whether both sides send on a stream, or only the side that opened it.
#[derive(Debug, Clone, Copy, PartialEq, Eq, Structural)]
pub enum StreamDirection {
    Bidirectional,
    Unidirectional,
}

/// What the owner of a connection is told.
#[allow(inconsistent_fields)]
#[derive(Debug)]
pub enum QuicEvent {
    Connected {
        id: QuicConnectionId,
        listener: Option<QuicListenerId>,
        peer: String,
        alpn: Option<Vec<u8>>,
    },
    StreamOpened { id: QuicConnectionId, stream: QuicStreamId, direction: StreamDirection },
    StreamData { id: QuicConnectionId, stream: QuicStreamId, data: Vec<u8> },
    /// All data of the local sending side was acknowledged.
    SendFinished { id: QuicConnectionId, stream: QuicStreamId },
    /// The peer has finished sending: no more data will come.
    ReceiveFinished { id: QuicConnectionId, stream: QuicStreamId },
    StreamReset { id: QuicConnectionId, stream: QuicStreamId, error_code: u64 },
    StreamStopped { id: QuicConnectionId, stream: QuicStreamId, error_code: u64 },
    Datagram { id: QuicConnectionId, data: Vec<u8> },
    Close { id: QuicConnectionId, error_code: Option<u64>, reason: Vec<u8> },
    Error { id: QuicConnectionId, reason: String },
    Warning { id: QuicConnectionId, buffered_bytes: usize },
}

/// What a [`QuicEvent`] says.
#[allow(inconsistent_fields)]
#[verifier::ext_equal]
pub enum EventView {
    Connected {
        id: QuicConnectionId,
        listener: Option<QuicListenerId>,
        peer: Seq<char>,
        alpn: Option<Seq<u8>>,
    },
    StreamOpened { id: QuicConnectionId, stream: QuicStreamId, direction: StreamDirection },
    StreamData { id: QuicConnectionId, stream: QuicStreamId, data: Seq<u8> },
    SendFinished { id: QuicConnectionId, stream: QuicStreamId },
    ReceiveFinished { id: QuicConnectionId, stream: QuicStreamId },
    StreamReset { id: QuicConnectionId, stream: QuicStreamId, error_code: u64 },
    StreamStopped { id: QuicConnectionId, stream: QuicStreamId, error_code: u64 },
    Datagram { id: QuicConnectionId, data: Seq<u8> },
    Close { id: QuicConnectionId, error_code: Option<u64>, reason: Seq<u8> },
    Error { id: QuicConnectionId, reason: Seq<char> },
    Warning { id: QuicConnectionId, buffered_bytes: int },
}

/// Optional bytes as a mathematical value.
pub open spec fn bytes_view(bytes: Option<Vec<u8>>) -> Option<Seq<u8>> {
    match bytes {
        None => None,
        Some(bytes) => Some(bytes@),
    }
}

/// Optional text as a mathematical value.
pub open spec fn text_view(text: Option<String>) -> Option<Seq<char>> {
    match text {
        None => None,
        Some(text) => Some(text@),
    }
}

impl View for QuicEvent {
    type V = EventView;

    open spec fn view(&self) -> EventView {
        match *self {
            QuicEvent::Connected { id, listener, peer, alpn } => EventView::Connected {
                id,
                listener,
                peer: peer@,
                alpn: bytes_view(alpn),
            },
            QuicEvent::StreamOpened { id, stream, direction } => EventView::StreamOpened {
                id,
                stream,
                direction,
            },
            QuicEvent::StreamData { id, stream, data } => EventView::StreamData {
                id,
                stream,
                data: data@,
            },
            QuicEvent::SendFinished { id, stream } => EventView::SendFinished { id, stream },
            QuicEvent::ReceiveFinished { id, stream } => EventView::ReceiveFinished { id, stream },
            QuicEvent::StreamReset { id, stream, error_code } => EventView::StreamReset {
                id,
                stream,
                error_code,
            },
            QuicEvent::StreamStopped { id, stream, error_code } => EventView::StreamStopped {
                id,
                stream,
                error_code,
            },
            QuicEvent::Datagram { id, data } => EventView::Datagram { id, data: data@ },
            QuicEvent::Close { id, error_code, reason } => EventView::Close {
                id,
                error_code,
                reason: reason@,
            },
            QuicEvent::Error { id, reason } => EventView::Error { id, reason: reason@ },
            QuicEvent::Warning { id, buffered_bytes } => EventView::Warning {
                id,
                buffered_bytes: buffered_bytes as int,
            },
        }
    }
}

impl EventView {
    /// The connection that the event is about.
    pub open spec fn connection(self) -> QuicConnectionId {
        match self {
            EventView::Connected { id, .. } => id,
            EventView::StreamOpened { id, .. } => id,
            EventView::StreamData { id, .. } => id,
            EventView::SendFinished { id, .. } => id,
            EventView::ReceiveFinished { id, .. } => id,
            EventView::StreamReset { id, .. } => id,
            EventView::StreamStopped { id, .. } => id,
            EventView::Datagram { id, .. } => id,
            EventView::Close { id, .. } => id,
            EventView::Error { id, .. } => id,
            EventView::Warning { id, .. } => id,
        }
    }
}

impl QuicEvent {
    /// The connection that the event is about.
    pub fn id(&self) -> (connection: QuicConnectionId)
        ensures
            connection == self@.connection(),
    {
        match self {
            QuicEvent::Connected { id, .. } => *id,
            QuicEvent::StreamOpened { id, .. } => *id,
            QuicEvent::StreamData { id, .. } => *id,
            QuicEvent::SendFinished { id, .. } => *id,
            QuicEvent::ReceiveFinished { id, .. } => *id,
            QuicEvent::StreamReset { id, .. } => *id,
            QuicEvent::StreamStopped { id, .. } => *id,
            QuicEvent::Datagram { id, .. } => *id,
            QuicEvent::Close { id, .. } => *id,
            QuicEvent::Error { id, .. } => *id,
            QuicEvent::Warning { id, .. } => *id,
        }
    }
}

/// A copy of optional bytes.
pub fn clone_bytes(bytes: &Option<Vec<u8>>) -> (copy: Option<Vec<u8>>)
    ensures
        bytes_view(copy) == bytes_view(*bytes),
{
    match bytes {
        None => None,
        Some(bytes) => {
            let copy = bytes.clone();
            assert(copy@ =~= bytes@);
            Some(copy)
        },
    }
}

/// A copy of optional text.
pub fn clone_text(text: &Option<String>) -> (copy: Option<String>)
    ensures
        text_view(copy) == text_view(*text),
{
    match text {
        None => None,
        Some(text) => Some(text.clone()),
    }
}

/// What is known of a connection.
#[derive(Debug)]
pub struct QuicInfo {
    pub id: QuicConnectionId,
    pub owner: u32,
    pub listener: Option<QuicListenerId>,
    pub state: &'static str,
    pub started: bool,
    pub local: Option<String>,
    pub peer: String,
    pub alpn: Option<Vec<u8>>,
    pub rtt_micros: u64,
    pub congestion_window: u64,
    pub open_send_streams: usize,
    pub buffered_bytes: usize,
}

/// What a [`QuicInfo`] says.
#[verifier::ext_equal]
pub struct InfoView {
    pub id: QuicConnectionId,
    pub owner: u32,
    pub listener: Option<QuicListenerId>,
    pub state: Seq<char>,
    pub started: bool,
    pub local: Option<Seq<char>>,
    pub peer: Seq<char>,
    pub alpn: Option<Seq<u8>>,
    pub rtt_micros: u64,
    pub congestion_window: u64,
    pub open_send_streams: usize,
    pub buffered_bytes: int,
}

impl View for QuicInfo {
    type V = InfoView;

    open spec fn view(&self) -> InfoView {
        InfoView {
            id: self.id,
            owner: self.owner,
            listener: self.listener,
            state: self.state@,
            started: self.started,
            local: text_view(self.local),
            peer: self.peer@,
            alpn: bytes_view(self.alpn),
            rtt_micros: self.rtt_micros,
            congestion_window: self.congestion_window,
            open_send_streams: self.open_send_streams,
            buffered_bytes: self.buffered_bytes as int,
        }
    }
}

impl QuicInfo {
    /// A round trip time given in nanoseconds, in whole microseconds, or the
    /// largest number if it does not fit.
    pub fn rtt_micros(nanos: u128) -> (micros: u64)
        ensures
            micros == if nanos / 1000 > u64::MAX {
                u64::MAX as u128
            } else {
                nanos / 1000
            },
    {
        let micros: u128 = nanos / 1000;
        if micros > u64::MAX as u128 {
            u64::MAX
        } else {
            micros as u64
        }
    }
}

} // verus!
