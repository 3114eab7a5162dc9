//! Bodies: how they are announced, and the handles by which they are read and written.

use crate::http::error::HttpError;
#[allow(unused_imports)]
use crate::http::error::{over_limit, HttpErrorView};
use crate::http::transport::TransportId;
use vstd::prelude::*;

verus! {

/// How a body is sent.
#[derive(Debug, Clone, Copy, PartialEq, Eq, Structural)]
pub enum BodySpec {
    /// There is none.
    Empty,
    /// It has so many bytes.
    Fixed(u64),
    /// It comes in chunks until it ends.
    Chunked,
}

impl BodySpec {
    /// How many bytes the body has, where that is known.
    pub open spec fn size(self) -> Option<u64> {
        match self {
            BodySpec::Empty => Some(0),
            BodySpec::Fixed(size) => Some(size),
            BodySpec::Chunked => None,
        }
    }

    /// How many bytes the body has, where that is known.
    pub fn expected(self) -> (expected: Option<u64>)
        ensures
            expected == self.size(),
    {
        match self {
            BodySpec::Empty => Some(0),
            BodySpec::Fixed(size) => Some(size),
            BodySpec::Chunked => None,
        }
    }
}

/// Where the chunks of a body come from.
#[derive(Debug, Clone, Copy, PartialEq, Eq, Structural)]
pub enum BodySource {
    /// The exchange of a client; the service that asked is told here too.
    Client { exchange: u64, source: u32 },
    /// The connection of a server.
    Server(TransportId),
}

/// A body that is received.
#[derive(Debug)]
pub struct IncomingBody {
    /// Where its chunks come from, unless it was given back.
    pub source: Option<BodySource>,
    /// Whether it has not ended yet.
    pub active: bool,
}

/// What is to be done about a body that nobody reads any more.
#[derive(Debug, Clone, Copy, PartialEq, Eq, Structural)]
pub enum BodyRelease {
    Nothing,
    /// The client is told to give the exchange up, in the name of the service that asked.
    Cancel { exchange: u64, source: u32 },
    /// The server's connection is closed, if the body has not come whole.
    AbortIncoming(TransportId),
}

impl IncomingBody {
    /// A body that has not ended.
    pub open spec fn fresh(source: BodySource) -> IncomingBody {
        IncomingBody { source: Some(source), active: true }
    }

    /// What is to be done about the body when nobody reads it any more.
    pub open spec fn release_for(self) -> BodyRelease {
        match self.source {
            Some(BodySource::Client { exchange, source }) if self.active => BodyRelease::Cancel {
                exchange,
                source,
            },
            Some(BodySource::Server(transport)) if self.active => BodyRelease::AbortIncoming(
                transport,
            ),
            _ => BodyRelease::Nothing,
        }
    }

    /// The body after an answer about its next chunk, which may have been that it has ended.
    pub open spec fn heard(self, ended: bool) -> IncomingBody {
        IncomingBody { source: self.source, active: self.active && !ended }
    }

    /// The body when it was given back.
    pub open spec fn given_back(self) -> IncomingBody {
        IncomingBody { source: None, active: self.active }
    }

    /// The body of a client's response.
    pub fn client(exchange: u64, source: u32) -> (body: IncomingBody)
        ensures
            body == IncomingBody::fresh(BodySource::Client { exchange, source }),
    {
        IncomingBody { source: Some(BodySource::Client { exchange, source }), active: true }
    }

    /// The body of a request to a server.
    pub fn server(transport: TransportId) -> (body: IncomingBody)
        ensures
            body == IncomingBody::fresh(BodySource::Server(transport)),
    {
        IncomingBody { source: Some(BodySource::Server(transport)), active: true }
    }

    /// Whom to ask for the next chunk.
    pub fn next_chunk(&self) -> (source: Result<BodySource, HttpError>)
        ensures
            source is Ok <==> self.source is Some,
            source matches Ok(source) ==> self.source == Some(source),
            source matches Err(error) ==> error@ == HttpErrorView::BodyClosed,
    {
        match self.source {
            Some(source) => Ok(source),
            None => Err(HttpError::BodyClosed),
        }
    }

    /// Takes note of what was answered: after its end the body needs nobody to give it up.
    pub fn answered(&mut self, answer: &Result<Option<Vec<u8>>, HttpError>)
        ensures
            final(self).source == old(self).source,
            final(self).active == (old(self).active && !(*answer matches Ok(None))),
            *final(self) == old(self).heard(*answer matches Ok(None)),
    {
        match answer {
            Ok(None) => {
                self.active = false;
            },
            _ => {},
        }
    }

    /// Gives the body back.
    pub fn close(&mut self)
        ensures
            final(self).source is None,
            final(self).active == old(self).active,
            *final(self) == old(self).given_back(),
    {
        self.source = None;
    }

    /// What is to be done when nobody reads the body any more.
    pub fn release(&self) -> (release: BodyRelease)
        ensures
            release == self.release_for(),
    {
        if !self.active {
            return BodyRelease::Nothing;
        }
        match self.source {
            Some(BodySource::Client { exchange, source }) => BodyRelease::Cancel {
                exchange,
                source,
            },
            Some(BodySource::Server(transport)) => BodyRelease::AbortIncoming(transport),
            None => BodyRelease::Nothing,
        }
    }
}

/// The body so far with one more chunk, or the error where that is more than `limit` bytes.
pub open spec fn collected(all: Seq<u8>, chunk: Seq<u8>, limit: usize) -> Result<
    Seq<u8>,
    HttpErrorView,
> {
    let size = all.len() + chunk.len();
    if size > limit {
        Err(over_limit(size as int, limit))
    } else {
        Ok(all + chunk)
    }
}

/// Adds a chunk to a body that is collected whole.
pub fn collect_chunk(all: &mut Vec<u8>, chunk: &Vec<u8>, limit: usize) -> (result: Result<
    (),
    HttpError,
>)
    ensures
        match collected(old(all)@, chunk@, limit) {
            Ok(body) => result is Ok && final(all)@ == body,
            Err(error) => {
                &&& result matches Err(given) && given@ == error
                &&& final(all)@ == old(all)@
            },
        },
{
    let size: usize = all.len().saturating_add(chunk.len());
    if size > limit || all.len() > limit || chunk.len() > limit - all.len() {
        return Err(HttpError::BackpressureLimit { actual: size, limit });
    }
    all.extend_from_slice(chunk.as_slice());
    assert(all@ =~= old(all)@ + chunk@);
    Ok(())
}

/// A body that is sent.
#[derive(Debug)]
pub struct OutgoingBody {
    /// The connection it is sent on, unless there is nothing to send.
    pub transport: Option<TransportId>,
}

impl OutgoingBody {
    /// The body of a server's response.
    pub fn server(transport: TransportId) -> (body: OutgoingBody)
        ensures
            body.transport == Some(transport),
    {
        OutgoingBody { transport: Some(transport) }
    }

    /// A body that has ended.
    pub fn finished() -> (body: OutgoingBody)
        ensures
            body.transport is None,
    {
        OutgoingBody { transport: None }
    }

    /// The connection to write a chunk to.
    pub fn write_chunk(&self) -> (transport: Result<TransportId, HttpError>)
        ensures
            transport is Ok <==> self.transport is Some,
            transport matches Ok(transport) ==> self.transport == Some(transport),
            transport matches Err(error) ==> error@ == HttpErrorView::BodyClosed,
    {
        match self.transport {
            Some(transport) => Ok(transport),
            None => Err(HttpError::BodyClosed),
        }
    }

    /// The connection on which the body is to be finished. The body is given back: whoever
    /// finishes it closes the connection where that fails.
    pub fn finish(&mut self) -> (transport: Option<TransportId>)
        ensures
            transport == old(self).transport,
            final(self).transport is None,
    {
        let transport = self.transport;
        self.transport = None;
        transport
    }

    /// The connection to close when nobody writes the body any more.
    pub fn release(&self) -> (transport: Option<TransportId>)
        ensures
            transport == self.transport,
    {
        self.transport
    }
}

/// A body that has ended, or was given back, leaves nothing to be done.
pub proof fn law_an_ended_body_is_left_alone(body: IncomingBody)
    requires
        !body.active || body.source is None,
    ensures
        body.release_for() == BodyRelease::Nothing,
{
}

/// A body that is left before its end is given up where it comes from, and there only; once its end
/// was heard nothing is given up, and a body goes on after every other answer.
pub proof fn law_an_unread_body_is_given_up(source: BodySource)
    ensures
        ({
            let body = IncomingBody::fresh(source);
            let release = body.release_for();
            &&& source matches BodySource::Client { exchange, source } ==> release
                == (BodyRelease::Cancel { exchange, source })
            &&& source matches BodySource::Server(transport) ==> release
                == BodyRelease::AbortIncoming(transport)
            &&& body.heard(false) == body
            &&& body.heard(true).release_for() is Nothing
            &&& body.heard(true).source == body.source
            &&& body.heard(true).heard(false) == body.heard(true)
            &&& body.given_back().release_for() is Nothing
            &&& body.given_back().source is None
        }),
{
}

} // verus!
