//! The connections that HTTP runs over.

use crate::net::event::SocketId;
use vstd::prelude::*;

verus! {

/// A secure connection or listener.
#[derive(Debug, Clone, Copy, PartialEq, Eq, Structural, Hash)]
pub struct TlsId(pub u64);

/// What the owner of a secure connection or listener is told.
#[derive(Debug)]
pub enum TlsEvent {
    /// A connection is secured; one that a listener accepted names it.
    Connected { id: TlsId, listen: Option<TlsId>, peer: String },
    /// Bytes were read.
    Data { id: TlsId, data: Vec<u8> },
    /// The connection is gone.
    Close { id: TlsId },
    /// The connection is gone, and this is why.
    Error { id: TlsId, reason: String },
    /// Too many bytes wait to be written.
    Warning { id: TlsId, kilobytes: usize },
}

impl TlsEvent {
    /// The connection or listener that the event is about.
    pub open spec fn about(self) -> TlsId {
        match self {
            TlsEvent::Connected { id, .. } => id,
            TlsEvent::Data { id, .. } => id,
            TlsEvent::Close { id } => id,
            TlsEvent::Error { id, .. } => id,
            TlsEvent::Warning { id, .. } => id,
        }
    }

    /// The connection or listener that the event is about.
    pub fn id(&self) -> (id: TlsId)
        ensures
            id == self.about(),
    {
        match self {
            TlsEvent::Connected { id, .. } => *id,
            TlsEvent::Data { id, .. } => *id,
            TlsEvent::Close { id } => *id,
            TlsEvent::Error { id, .. } => *id,
            TlsEvent::Warning { id, .. } => *id,
        }
    }
}

/// A connection or listener, plain or secure.
#[derive(Debug, Clone, Copy, PartialEq, Eq, Structural, Hash)]
pub enum TransportId {
    Plain(SocketId),
    Tls(TlsId),
}

impl TransportId {
    /// A number of its own for each transport.
    pub open spec fn number(self) -> u128 {
        match self {
            TransportId::Plain(id) => (2 * id.0) as u128,
            TransportId::Tls(id) => (2 * id.0 + 1) as u128,
        }
    }

    /// A number of its own for each transport.
    pub fn key(self) -> (key: u128)
        ensures
            key == self.number(),
    {
        match self {
            TransportId::Plain(id) => 2 * (id.0 as u128),
            TransportId::Tls(id) => 2 * (id.0 as u128) + 1,
        }
    }
}

/// Two transports with the same number are the same.
pub proof fn law_transport_numbers_differ(first: TransportId, second: TransportId)
    requires
        first.number() == second.number(),
    ensures
        first == second,
{
}

} // verus!
