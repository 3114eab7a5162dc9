//! What a step of the socket layer leaves to be sent.

use crate::net::command::Answer;
use crate::net::event::SocketEvent;
use crate::net::socket::Pending;
#[allow(unused_imports)]
use crate::net::{command::AnswerView, event::SocketEventView};
use vstd::prelude::*;

verus! {

/// An event and the service it is for.
#[derive(Debug)]
pub struct OwnedEvent {
    pub owner: u32,
    pub event: SocketEvent,
}

/// An answer and who waits for it.
#[derive(Debug)]
pub struct OwedAnswer {
    pub pending: Pending,
    pub answer: Answer,
}

/// Events and answers to send.
#[derive(Debug)]
pub struct NetOutput {
    pub events: Vec<OwnedEvent>,
    pub replies: Vec<OwedAnswer>,
}

/// What a [`NetOutput`] says.
#[verifier::ext_equal]
pub struct NetOutputView {
    pub events: Seq<(u32, SocketEventView)>,
    pub replies: Seq<(Pending, AnswerView)>,
}

impl View for OwnedEvent {
    type V = (u32, SocketEventView);

    open spec fn view(&self) -> (u32, SocketEventView) {
        (self.owner, self.event@)
    }
}

impl View for OwedAnswer {
    type V = (Pending, AnswerView);

    open spec fn view(&self) -> (Pending, AnswerView) {
        (self.pending, self.answer@)
    }
}

impl View for NetOutput {
    type V = NetOutputView;

    open spec fn view(&self) -> NetOutputView {
        NetOutputView {
            events: self.events@.map_values(|e: OwnedEvent| e@),
            replies: self.replies@.map_values(|r: OwedAnswer| r@),
        }
    }
}

impl NetOutputView {
    /// Nothing to send.
    pub open spec fn empty() -> NetOutputView {
        NetOutputView { events: Seq::empty(), replies: Seq::empty() }
    }

    /// One more event.
    pub open spec fn event(self, owner: u32, event: SocketEventView) -> NetOutputView {
        NetOutputView { events: self.events.push((owner, event)), ..self }
    }

    /// One more answer, unless nobody waits for it.
    pub open spec fn reply(self, pending: Pending, answer: AnswerView) -> NetOutputView {
        if pending.session == 0 {
            self
        } else {
            NetOutputView { replies: self.replies.push((pending, answer)), ..self }
        }
    }

    /// One more answer where somebody is noted as waiting.
    pub open spec fn reply_to(self, pending: Option<Pending>, answer: AnswerView) -> NetOutputView {
        match pending {
            Some(pending) => self.reply(pending, answer),
            None => self,
        }
    }

    /// The same answer for several.
    pub open spec fn reply_all(self, pending: Seq<Pending>, answer: AnswerView) -> NetOutputView
        decreases pending.len(),
    {
        if pending.len() == 0 {
            self
        } else {
            self.reply_all(pending.drop_last(), answer).reply(pending.last(), answer)
        }
    }
}

impl Default for NetOutput {
    /// Nothing to send.
    fn default() -> (output: NetOutput)
        ensures
            output@ == NetOutputView::empty(),
    {
        let output = NetOutput { events: Vec::new(), replies: Vec::new() };
        assert(output@ =~= NetOutputView::empty());
        output
    }
}

impl NetOutput {
    /// Adds an event.
    pub fn event(&mut self, owner: u32, event: SocketEvent)
        ensures
            final(self)@ == old(self)@.event(owner, event@),
    {
        self.events.push(OwnedEvent { owner, event });
        assert(self@ =~= old(self)@.event(owner, event@));
    }

    /// Adds an answer, unless nobody waits for it.
    pub fn reply(&mut self, pending: Pending, answer: Answer)
        ensures
            final(self)@ == old(self)@.reply(pending, answer@),
    {
        if pending.is_silent() {
            return;
        }
        self.replies.push(OwedAnswer { pending, answer });
        assert(self@ =~= old(self)@.reply(pending, answer@));
    }

    /// Adds an answer where somebody is noted as waiting.
    pub fn reply_to(&mut self, pending: Option<Pending>, answer: Answer)
        ensures
            final(self)@ == old(self)@.reply_to(pending, answer@),
    {
        if let Some(pending) = pending {
            self.reply(pending, answer);
        }
    }
}

} // verus!
