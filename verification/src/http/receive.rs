//! How the response and its body reach whoever waits for them.

use crate::http::body::IncomingBody;
#[allow(unused_imports)]
use crate::http::body::BodySource;
use crate::http::effect::{Answer, ClientOutput};
#[allow(unused_imports)]
use crate::http::effect::{optional_bytes, reply, reply_to, AnswerView, EffectView};
use crate::http::error::HttpError;
#[allow(unused_imports)]
use crate::http::error::HttpErrorView;
use crate::http::exchange::{buffered_bytes, Exchange};
#[allow(unused_imports)]
use crate::http::exchange::ExchangeView;
use crate::net::socket::Pending;
use vstd::prelude::*;

verus! {

impl ExchangeView {
    /// What a reader of the body is answered now; nothing where it has to wait.
    pub open spec fn body_answer(self) -> Option<AnswerView> {
        if self.chunks.len() > 0 {
            Some(AnswerView::Chunk(Some(self.chunks[0])))
        } else if self.error is Some {
            Some(AnswerView::Failed(HttpErrorView::Transport(self.error->0)))
        } else if self.body_ended {
            Some(AnswerView::Chunk(None))
        } else {
            None
        }
    }

    /// The exchange after a reader of the body was answered.
    pub open spec fn body_taken(self) -> ExchangeView {
        ExchangeView {
            chunks: if self.chunks.len() > 0 {
                self.chunks.skip(1)
            } else {
                self.chunks
            },
            ..self
        }
    }

    /// After reading: a reader of the body that can be answered is.
    pub open spec fn served(self) -> ExchangeView {
        if self.body_waiter is Some && self.body_answer() is Some {
            ExchangeView { body_waiter: None, ..self.body_taken() }
        } else {
            self
        }
    }

    /// Whether the connection is to receive nothing for a while.
    pub open spec fn to_pause(self, high: usize) -> bool {
        !self.body_ended && self.buffered() >= high && !self.paused
    }

    /// After reading: readers are answered where they can be, and the connection is paused
    /// where too much waits.
    pub open spec fn settled(self, high: usize) -> ExchangeView {
        let x = self.served();
        let x = if x.to_pause(high) {
            ExchangeView { paused: true, ..x }
        } else {
            x
        };
        if x.error is Some {
            ExchangeView { response_waiter: None, ..x }
        } else {
            x
        }
    }

    /// The answers that this gives.
    pub open spec fn settling(self, effects: Seq<EffectView>) -> Seq<EffectView> {
        let effects = match (self.body_waiter, self.body_answer()) {
            (Some(waiting), Some(answer)) => reply(effects, waiting, answer),
            _ => effects,
        };
        if self.error is Some {
            reply_to(
                effects,
                self.response_waiter,
                AnswerView::Failed(HttpErrorView::Protocol(self.error->0)),
            )
        } else {
            effects
        }
    }

    /// What someone who asks for the response is answered now; nothing where the response has to
    /// be waited for.
    pub open spec fn response_answer(self, id: u64, pending: Pending) -> Option<AnswerView> {
        if self.response_taken {
            Some(AnswerView::Failed(HttpErrorView::InvalidState("响应已取得"@)))
        } else if self.error is Some {
            Some(AnswerView::Failed(HttpErrorView::Transport(self.error->0)))
        } else if self.response is Some {
            Some(
                AnswerView::Response {
                    response: self.response->0,
                    body: IncomingBody::fresh(
                        BodySource::Client { exchange: id, source: pending.source },
                    ),
                },
            )
        } else if self.response_waiter is Some {
            Some(AnswerView::Failed(HttpErrorView::InvalidState("已有 response 调用在等待"@)))
        } else {
            None
        }
    }

    /// The exchange after someone asked for the response.
    pub open spec fn response_asked(self, pending: Pending) -> ExchangeView {
        if self.response_taken || self.error is Some {
            self
        } else if self.response is Some {
            ExchangeView { response: None, response_taken: true, ..self }
        } else if self.response_waiter is Some {
            self
        } else {
            ExchangeView { response_waiter: Some(pending), ..self }
        }
    }

    /// What someone who asks for the next part of the body is answered now; nothing where it has
    /// to be waited for.
    pub open spec fn next_answer(self) -> Option<AnswerView> {
        match self.body_answer() {
            Some(answer) => Some(answer),
            None => if self.body_waiter is Some {
                Some(AnswerView::Failed(HttpErrorView::InvalidState("已有 next_chunk 调用在等待"@)))
            } else {
                None
            },
        }
    }

    /// The exchange after someone asked for the next part of the body.
    pub open spec fn next_asked(self, pending: Pending, low: usize) -> ExchangeView {
        let x = if self.next_answer() is None {
            ExchangeView { body_waiter: Some(pending), ..self }
        } else if self.body_answer() is Some {
            self.body_taken()
        } else {
            self
        };
        let x = if x.to_resume(low) {
            ExchangeView { paused: false, ..x }
        } else {
            x
        };
        if self.next_answer() == Some(AnswerView::Chunk(None)) {
            ExchangeView { reusable: None, ..x }
        } else {
            x
        }
    }

    /// Whether a paused connection is to receive again.
    pub open spec fn to_resume(self, low: usize) -> bool {
        self.paused && self.buffered() <= low
    }

    /// Whether the connection is to receive again after someone asked for the next part of the
    /// body.
    pub open spec fn next_resumes(self, low: usize) -> bool {
        self.body_taken_for_next().to_resume(low)
    }

    /// What is left when a part of the body was handed out, if there was one.
    pub open spec fn body_taken_for_next(self) -> ExchangeView {
        if self.body_answer() is Some {
            self.body_taken()
        } else {
            self
        }
    }

    /// What is known of the connection's further use, when the end of the body is handed out.
    pub open spec fn next_ends(self) -> Option<bool> {
        if self.next_answer() == Some(AnswerView::Chunk(None)) {
            self.reusable
        } else {
            None
        }
    }
}

/// What asking for the next part of a body leads to.
pub struct NextBody {
    /// What is answered now.
    pub answer: Option<Answer>,
    /// Whether the connection is to receive again first.
    pub resume: bool,
    /// The exchange is over; the connection serves again, or not.
    pub ends: Option<bool>,
}

impl Exchange {
    /// Takes the first chunk of the body.
    fn first_chunk(&mut self) -> (chunk: Option<Vec<u8>>)
        ensures
            old(self)@.chunks.len() == 0 ==> chunk is None && final(self)@ == old(self)@,
            old(self)@.chunks.len() > 0 ==> {
                &&& optional_bytes(chunk) == Some(old(self)@.chunks[0])
                &&& final(self)@ == old(self)@.body_taken()
            },
            final(self).proto == old(self).proto,
    {
        let chunk = self.chunks.pop_front();
        if chunk.is_some() {
            assert(self@.chunks =~= old(self)@.chunks.skip(1));
        }
        assert(self@ =~= (if old(self)@.chunks.len() > 0 {
            old(self)@.body_taken()
        } else {
            old(self)@
        }));
        chunk
    }

    /// What a reader of the body is answered now.
    fn answer_body(&mut self) -> (answer: Option<Answer>)
        ensures
            match old(self)@.body_answer() {
                Some(expected) => {
                    &&& answer matches Some(given) && given@ == expected
                    &&& final(self)@ == old(self)@.body_taken()
                },
                None => answer is None && final(self)@ == old(self)@,
            },
            final(self).proto == old(self).proto,
    {
        if let Some(chunk) = self.first_chunk() {
            return Some(Answer::Chunk(Some(chunk)));
        }
        assert(self@ == self@.body_taken());
        if let Some(reason) = &self.error {
            Some(Answer::Failed(HttpError::Transport(reason.clone())))
        } else if self.body_ended {
            Some(Answer::Chunk(None))
        } else {
            None
        }
    }

    /// After reading: answers who can be answered, and says whether the connection is to be
    /// paused.
    pub fn settle(&mut self, high: usize, output: &mut ClientOutput) -> (pause: bool)
        ensures
            final(self)@ == old(self)@.settled(high),
            final(self).proto == old(self).proto,
            final(output)@ == old(self)@.settling(old(output)@),
            pause == old(self)@.served().to_pause(high),
    {
        let ghost before = self@;
        if let Some(waiting) = self.body_waiter {
            match self.answer_body() {
                Some(answer) => {
                    self.body_waiter = None;
                    output.reply(waiting, answer);
                },
                None => {},
            }
        }
        assert(self@ =~= before.served());
        let buffered: u128 = buffered_bytes(&self.input, &self.chunks);
        let pause = !self.body_ended && buffered >= high as u128 && !self.paused;
        if pause {
            self.paused = true;
        }
        if let Some(reason) = &self.error {
            let reason = reason.clone();
            if let Some(waiting) = self.response_waiter {
                self.response_waiter = None;
                output.reply(waiting, Answer::Failed(HttpError::Protocol(reason)));
            }
        }
        assert(self@ =~= before.settled(high));
        pause
    }

    /// Someone asks for the response; the answer, or nothing where it has to be waited for.
    pub fn ask_response(&mut self, id: u64, pending: Pending) -> (answer: Option<Answer>)
        ensures
            final(self)@ == old(self)@.response_asked(pending),
            match old(self)@.response_answer(id, pending) {
                Some(expected) => answer matches Some(given) && given@ == expected,
                None => answer is None,
            },
            final(self).proto == old(self).proto,
    {
        if self.response_taken {
            return Some(Answer::Failed(HttpError::InvalidState("响应已取得")));
        }
        if let Some(reason) = &self.error {
            return Some(Answer::Failed(HttpError::Transport(reason.clone())));
        }
        let ghost before = self@;
        match self.response.take() {
            Some(response) => {
                self.response_taken = true;
                let body = IncomingBody::client(id, pending.source);
                assert(self@ =~= before.response_asked(pending));
                Some(Answer::Response { response, body })
            },
            None => {
                if self.response_waiter.is_some() {
                    assert(self@ =~= before);
                    return Some(
                        Answer::Failed(HttpError::InvalidState("已有 response 调用在等待")),
                    );
                }
                self.response_waiter = Some(pending);
                assert(self@ =~= before.response_asked(pending));
                None
            },
        }
    }

    /// Someone asks for the next part of the body.
    pub fn ask_body(&mut self, pending: Pending, low: usize) -> (next: NextBody)
        ensures
            final(self)@ == old(self)@.next_asked(pending, low),
            match old(self)@.next_answer() {
                Some(expected) => next.answer matches Some(given) && given@ == expected,
                None => next.answer is None,
            },
            next.resume == old(self)@.next_resumes(low),
            next.ends == old(self)@.next_ends(),
            final(self).proto == old(self).proto,
    {
        let ghost before = self@;
        let mut answer = self.answer_body();
        assert(self@ == before.body_taken_for_next());
        if answer.is_none() {
            if self.body_waiter.is_some() {
                answer =
                Some(Answer::Failed(HttpError::InvalidState("已有 next_chunk 调用在等待")));
            } else {
                self.body_waiter = Some(pending);
            }
        }
        let buffered: u128 = buffered_bytes(&self.input, &self.chunks);
        let resume = self.paused && buffered <= low as u128;
        if resume {
            self.paused = false;
        }
        let ended = match &answer {
            Some(Answer::Chunk(None)) => true,
            _ => false,
        };
        let ends = if ended {
            self.reusable.take()
        } else {
            None
        };
        assert(self@ =~= before.next_asked(pending, low));
        NextBody { answer, resume, ends }
    }

    /// The one who asked with this number waits no longer; whoever that is.
    pub fn give_up_waiting(&mut self, session: u64, body: bool) -> (waiting: Option<Pending>)
        ensures
            waiting == old(self)@.waiter(session, body),
            final(self)@ == old(self)@.unwaited(session, body),
            final(self).proto == old(self).proto,
    {
        let ghost before = self@;
        let slot = if body {
            self.body_waiter
        } else {
            self.response_waiter
        };
        match slot {
            Some(pending) => {
                if pending.session == session {
                    if body {
                        self.body_waiter = None;
                    } else {
                        self.response_waiter = None;
                    }
                    assert(self@ =~= before.unwaited(session, body));
                    Some(pending)
                } else {
                    None
                }
            },
            None => None,
        }
    }
}

impl ExchangeView {
    /// Who waits with this number for the body or the response.
    pub open spec fn waiter(self, session: u64, body: bool) -> Option<Pending> {
        let slot = if body {
            self.body_waiter
        } else {
            self.response_waiter
        };
        match slot {
            Some(pending) if pending.session == session => Some(pending),
            _ => None,
        }
    }

    /// The exchange when the one with this number waits no longer.
    pub open spec fn unwaited(self, session: u64, body: bool) -> ExchangeView {
        if self.waiter(session, body) is None {
            self
        } else if body {
            ExchangeView { body_waiter: None, ..self }
        } else {
            ExchangeView { response_waiter: None, ..self }
        }
    }
}

/// The parts of a body are handed out in the order in which they came, and none is lost.
pub proof fn law_chunks_are_handed_out_in_order(exchange: ExchangeView, pending: Pending, low: usize)
    requires
        exchange.chunks.len() > 0,
    ensures
        exchange.next_answer() == Some(AnswerView::Chunk(Some(exchange.chunks[0]))),
        seq![exchange.chunks[0]] + exchange.next_asked(pending, low).chunks == exchange.chunks,
{
    assert(seq![exchange.chunks[0]] + exchange.chunks.skip(1) =~= exchange.chunks);
}

/// Parts of a body that came before the exchange broke are still handed out.
pub proof fn law_a_break_does_not_lose_what_came(exchange: ExchangeView, reason: Seq<char>)
    requires
        exchange.chunks.len() > 0,
    ensures
        exchange.broken(reason).next_answer() == exchange.next_answer(),
{
}

/// A connection that was just paused for what it held is not resumed before some of that was
/// taken.
pub proof fn law_marks_keep_their_distance(exchange: ExchangeView, low: usize, high: usize)
    requires
        low < high,
        exchange.to_pause(high),
    ensures
        !(ExchangeView { paused: true, ..exchange }).to_resume(low),
{
}

/// The response is handed out once.
pub proof fn law_the_response_is_handed_out_once(
    exchange: ExchangeView,
    id: u64,
    first: Pending,
    second: Pending,
)
    requires
        exchange.response_answer(id, first) matches Some(AnswerView::Response { .. }),
    ensures
        exchange.response_asked(first).response_answer(id, second) == Some(
            AnswerView::Failed(HttpErrorView::InvalidState("响应已取得"@)),
        ),
{
}

} // verus!
