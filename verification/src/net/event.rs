//! Socket numbers, the events that owners are sent, and the description of a
//! socket.

use crate::text::push_decimal;
#[allow(unused_imports)]
use crate::text::decimal;
use vstd::prelude::*;

verus! {

/// A connection, a listener or a datagram socket. Numbers only grow, so that
/// one whose slot was given away is not taken for another.
#[derive(Debug, Clone, Copy, PartialEq, Eq, Structural, PartialOrd, Ord, Hash)]
pub struct SocketId(pub u32);

impl SocketId {
    /// How the socket is written in messages.
    pub open spec fn name(self) -> Seq<char> {
        "#"@ + decimal(self.0 as nat)
    }

    /// The number.
    pub fn raw(self) -> (raw: u32)
        ensures
            raw == self.0,
    {
        self.0
    }

    /// How the socket is written in messages.
    pub fn text(self) -> (text: String)
        ensures
            text@ == self.name(),
    {
        let mut text = "#".to_owned();
        push_decimal(&mut text, self.0 as u64);
        text
    }
}

/// What the owner of a socket is told.
#[derive(Debug)]
pub enum SocketEvent {
    /// A listener has a new connection. It receives nothing until it is
    /// started, which leaves time to hand it over.
    Accept { id: SocketId, listen: SocketId, peer: String },
    /// Bytes were read.
    Data { id: SocketId, data: Vec<u8> },
    /// A datagram was received.
    Udp { id: SocketId, from: String, data: Vec<u8> },
    /// The socket is gone.
    Close { id: SocketId },
    /// The socket is gone, and this is why.
    Error { id: SocketId, reason: String },
    /// Too many bytes wait to be written.
    Warning { id: SocketId, kilobytes: usize },
}

/// What a [`SocketEvent`] says.
#[verifier::ext_equal]
pub enum SocketEventView {
    Accept { id: SocketId, listen: SocketId, peer: Seq<char> },
    Data { id: SocketId, data: Seq<u8> },
    Udp { id: SocketId, from: Seq<char>, data: Seq<u8> },
    Close { id: SocketId },
    Error { id: SocketId, reason: Seq<char> },
    Warning { id: SocketId, kilobytes: usize },
}

impl View for SocketEvent {
    type V = SocketEventView;

    open spec fn view(&self) -> SocketEventView {
        match *self {
            SocketEvent::Accept { id, listen, peer } => SocketEventView::Accept {
                id,
                listen,
                peer: peer@,
            },
            SocketEvent::Data { id, data } => SocketEventView::Data { id, data: data@ },
            SocketEvent::Udp { id, from, data } => SocketEventView::Udp {
                id,
                from: from@,
                data: data@,
            },
            SocketEvent::Close { id } => SocketEventView::Close { id },
            SocketEvent::Error { id, reason } => SocketEventView::Error { id, reason: reason@ },
            SocketEvent::Warning { id, kilobytes } => SocketEventView::Warning { id, kilobytes },
        }
    }
}

impl SocketEventView {
    /// The socket that the event is about.
    pub open spec fn socket(self) -> SocketId {
        match self {
            SocketEventView::Accept { id, .. } => id,
            SocketEventView::Data { id, .. } => id,
            SocketEventView::Udp { id, .. } => id,
            SocketEventView::Close { id } => id,
            SocketEventView::Error { id, .. } => id,
            SocketEventView::Warning { id, .. } => id,
        }
    }
}

impl SocketEvent {
    /// The socket that the event is about.
    pub fn id(&self) -> (socket: SocketId)
        ensures
            socket == self@.socket(),
    {
        match self {
            SocketEvent::Accept { id, .. } => *id,
            SocketEvent::Data { id, .. } => *id,
            SocketEvent::Udp { id, .. } => *id,
            SocketEvent::Close { id } => *id,
            SocketEvent::Error { id, .. } => *id,
            SocketEvent::Warning { id, .. } => *id,
        }
    }

    /// The event says that the socket is gone.
    pub fn is_gone(&self) -> (gone: bool)
        ensures
            gone == (self is Close || self is Error),
    {
        match self {
            SocketEvent::Close { .. } => true,
            SocketEvent::Error { .. } => true,
            _ => false,
        }
    }
}

/// What is known of a socket. Kind and names of the owner are known to the
/// node and entered there.
#[derive(Debug)]
pub struct SocketInfo {
    pub id: SocketId,
    pub owner: u32,
    pub owner_kind: Option<String>,
    pub owner_names: Vec<String>,
    pub kind: &'static str,
    pub state: &'static str,
    pub paused: bool,
    pub local: Option<String>,
    pub peer: Option<String>,
    pub write_pending: usize,
    pub accept_count: u64,
    pub read_bytes: u64,
    pub write_bytes: u64,
    pub last_read_at_ms: Option<u64>,
    pub last_write_at_ms: Option<u64>,
    /// Bytes or connections are taken in.
    pub reading: bool,
    /// Bytes wait to be written.
    pub writing: bool,
}

/// What a [`SocketInfo`] says, before the node enters what it knows.
#[verifier::ext_equal]
pub struct SocketInfoView {
    pub id: SocketId,
    pub owner: u32,
    pub kind: Seq<char>,
    pub state: Seq<char>,
    pub paused: bool,
    pub local: Option<Seq<char>>,
    pub peer: Option<Seq<char>>,
    pub write_pending: int,
    pub accept_count: u64,
    pub read_bytes: u64,
    pub write_bytes: u64,
    pub last_read_at_ms: Option<u64>,
    pub last_write_at_ms: Option<u64>,
    pub reading: bool,
    pub writing: bool,
}

/// Optional text as a mathematical value.
pub open spec fn text_view(text: Option<String>) -> Option<Seq<char>> {
    match text {
        None => None,
        Some(text) => Some(text@),
    }
}

/// A copy of optional text.
pub fn clone_text(text: &Option<String>) -> (copy: Option<String>)
    ensures
        text_view(copy) == text_view(*text),
{
    match text {
        None => None,
        Some(text) => Some(text.clone()),
    }
}

impl View for SocketInfo {
    type V = SocketInfoView;

    open spec fn view(&self) -> SocketInfoView {
        SocketInfoView {
            id: self.id,
            owner: self.owner,
            kind: self.kind@,
            state: self.state@,
            paused: self.paused,
            local: text_view(self.local),
            peer: text_view(self.peer),
            write_pending: self.write_pending as int,
            accept_count: self.accept_count,
            read_bytes: self.read_bytes,
            write_bytes: self.write_bytes,
            last_read_at_ms: self.last_read_at_ms,
            last_write_at_ms: self.last_write_at_ms,
            reading: self.reading,
            writing: self.writing,
        }
    }
}

} // verus!
