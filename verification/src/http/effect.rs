//! What the client answers, and what it leaves to be done.

use crate::http::body::IncomingBody;
use crate::http::error::HttpError;
#[allow(unused_imports)]
use crate::http::error::HttpErrorView;
use crate::http::transport::TransportId;
use crate::net::socket::Pending;
use ureq_proto::http::Response;
use vstd::prelude::*;

verus! {

/// What the client answers.
pub enum Answer {
    /// The number of the exchange that was started.
    Id(u64),
    /// It is done.
    Done,
    /// The head of the response, and the handle of its body.
    Response { response: Response<()>, body: IncomingBody },
    /// The next part of the body, or nothing after its end.
    Chunk(Option<Vec<u8>>),
    /// It failed.
    Failed(HttpError),
}

/// What an [`Answer`] says.
#[verifier::ext_equal]
pub enum AnswerView {
    Id(u64),
    Done,
    Response { response: Response<()>, body: IncomingBody },
    Chunk(Option<Seq<u8>>),
    Failed(HttpErrorView),
}

/// Bytes that may be missing.
pub open spec fn optional_bytes(bytes: Option<Vec<u8>>) -> Option<Seq<u8>> {
    match bytes {
        Some(bytes) => Some(bytes@),
        None => None,
    }
}

impl View for Answer {
    type V = AnswerView;

    open spec fn view(&self) -> AnswerView {
        match *self {
            Answer::Id(id) => AnswerView::Id(id),
            Answer::Done => AnswerView::Done,
            Answer::Response { response, body } => AnswerView::Response { response, body },
            Answer::Chunk(chunk) => AnswerView::Chunk(optional_bytes(chunk)),
            Answer::Failed(error) => AnswerView::Failed(error@),
        }
    }
}

/// An answer of another kind than was asked for.
pub open spec fn mismatch(answer: AnswerView, text: Seq<char>) -> HttpErrorView {
    match answer {
        AnswerView::Failed(error) => error,
        _ => HttpErrorView::ServiceUnavailable(text),
    }
}

impl Answer {
    /// The error of an answer of another kind than was asked for.
    fn refused(self, text: &str) -> (error: HttpError)
        ensures
            error@ == mismatch(self@, text@),
    {
        match self {
            Answer::Failed(error) => error,
            _ => HttpError::ServiceUnavailable(text.to_owned()),
        }
    }

    /// The number of the exchange that was started.
    pub fn started(self) -> (result: Result<u64, HttpError>)
        ensures
            match self@ {
                AnswerView::Id(id) => result == Ok::<u64, HttpError>(id),
                _ => result matches Err(error) && error@ == mismatch(self@, "启动应答错误"@),
            },
    {
        match self {
            Answer::Id(id) => Ok(id),
            other => Err(other.refused("启动应答错误")),
        }
    }

    /// A chunk was written.
    pub fn written(self) -> (result: Result<(), HttpError>)
        ensures
            match self@ {
                AnswerView::Done => result is Ok,
                _ => result matches Err(error) && error@ == mismatch(self@, "写应答错误"@),
            },
    {
        match self {
            Answer::Done => Ok(()),
            other => Err(other.refused("写应答错误")),
        }
    }

    /// The request was finished.
    pub fn finished(self) -> (result: Result<(), HttpError>)
        ensures
            match self@ {
                AnswerView::Done => result is Ok,
                _ => result matches Err(error) && error@ == mismatch(self@, "结束应答错误"@),
            },
    {
        match self {
            Answer::Done => Ok(()),
            other => Err(other.refused("结束应答错误")),
        }
    }

    /// The response came.
    pub fn response(self) -> (result: Result<(Response<()>, IncomingBody), HttpError>)
        ensures
            match self@ {
                AnswerView::Response { response, body } => result == Ok::<
                    (Response<()>, IncomingBody),
                    HttpError,
                >((response, body)),
                _ => result matches Err(error) && error@ == mismatch(self@, "响应类型错误"@),
            },
    {
        match self {
            Answer::Response { response, body } => Ok((response, body)),
            other => Err(other.refused("响应类型错误")),
        }
    }

    /// The next part of the body came, or its end.
    pub fn chunk(self) -> (result: Result<Option<Vec<u8>>, HttpError>)
        ensures
            match self@ {
                AnswerView::Chunk(chunk) => result matches Ok(bytes) && optional_bytes(bytes)
                    == chunk,
                _ => result matches Err(error) && error@ == mismatch(self@, "body 应答错误"@),
            },
    {
        match self {
            Answer::Chunk(chunk) => Ok(chunk),
            other => Err(other.refused("body 应答错误")),
        }
    }
}

/// Something to do, in the order in which it is listed.
#[allow(inconsistent_fields)]
pub enum Effect {
    /// An answer goes to whoever waits for it.
    Reply { pending: Pending, answer: Answer },
    /// A connection is closed at once.
    Shutdown(TransportId),
    /// After this time the exchange sends its body without leave.
    ContinueTimeout { id: u64, after_ms: u64 },
    /// After this time the one who asked with this number waits no longer.
    WaitTimeout { id: u64, session: u64, body: bool, after_ms: u64 },
    /// After this time the connection is idle no longer, if it is still the same idleness.
    IdleTimeout { transport: TransportId, generation: u64, after_ms: u64 },
    /// A connection may have become free for a start that waits.
    Wake,
}

/// What an [`Effect`] says.
#[verifier::ext_equal]
#[allow(inconsistent_fields)]
pub enum EffectView {
    Reply { pending: Pending, answer: AnswerView },
    Shutdown(TransportId),
    ContinueTimeout { id: u64, after_ms: u64 },
    WaitTimeout { id: u64, session: u64, body: bool, after_ms: u64 },
    IdleTimeout { transport: TransportId, generation: u64, after_ms: u64 },
    Wake,
}

impl View for Effect {
    type V = EffectView;

    open spec fn view(&self) -> EffectView {
        match *self {
            Effect::Reply { pending, answer } => EffectView::Reply { pending, answer: answer@ },
            Effect::Shutdown(transport) => EffectView::Shutdown(transport),
            Effect::ContinueTimeout { id, after_ms } => EffectView::ContinueTimeout {
                id,
                after_ms,
            },
            Effect::WaitTimeout { id, session, body, after_ms } => EffectView::WaitTimeout {
                id,
                session,
                body,
                after_ms,
            },
            Effect::IdleTimeout { transport, generation, after_ms } => EffectView::IdleTimeout {
                transport,
                generation,
                after_ms,
            },
            Effect::Wake => EffectView::Wake,
        }
    }
}

/// One more answer, unless nobody waits for it.
pub open spec fn reply(effects: Seq<EffectView>, pending: Pending, answer: AnswerView) -> Seq<
    EffectView,
> {
    if pending.session == 0 {
        effects
    } else {
        effects.push(EffectView::Reply { pending, answer })
    }
}

/// One more answer, where somebody is noted as waiting.
pub open spec fn reply_to(
    effects: Seq<EffectView>,
    pending: Option<Pending>,
    answer: AnswerView,
) -> Seq<EffectView> {
    match pending {
        Some(pending) => reply(effects, pending, answer),
        None => effects,
    }
}

/// What is to be done.
pub struct ClientOutput {
    pub effects: Vec<Effect>,
}

impl View for ClientOutput {
    type V = Seq<EffectView>;

    open spec fn view(&self) -> Seq<EffectView> {
        self.effects@.map_values(|e: Effect| e@)
    }
}

impl Default for ClientOutput {
    /// Nothing to do.
    fn default() -> (output: ClientOutput)
        ensures
            output@ == Seq::<EffectView>::empty(),
    {
        let output = ClientOutput { effects: Vec::new() };
        assert(output@ =~= Seq::<EffectView>::empty());
        output
    }
}

impl ClientOutput {
    /// Adds something to do.
    pub fn push(&mut self, effect: Effect)
        ensures
            final(self)@ == old(self)@.push(effect@),
    {
        self.effects.push(effect);
        assert(self@ =~= old(self)@.push(effect@));
    }

    /// Adds an answer, unless nobody waits for it.
    pub fn reply(&mut self, pending: Pending, answer: Answer)
        ensures
            final(self)@ == reply(old(self)@, pending, answer@),
    {
        if pending.session != 0 {
            self.push(Effect::Reply { pending, answer });
        }
    }

    /// Adds an answer, where somebody is noted as waiting.
    pub fn reply_to(&mut self, pending: Option<Pending>, answer: Answer)
        ensures
            final(self)@ == reply_to(old(self)@, pending, answer@),
    {
        if let Some(pending) = pending {
            self.reply(pending, answer);
        }
    }
}

} // verus!
