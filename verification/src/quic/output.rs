//! What a step of the QUIC service leaves to be sent.

use crate::quic::command::Answer;
use crate::quic::event::QuicEvent;
#[allow(unused_imports)]
use crate::quic::command::AnswerView;
#[allow(unused_imports)]
use crate::quic::event::EventView;
use vstd::prelude::*;

verus! {

/// Who waits for an answer: the service that asked, and the number of its
/// request, zero where it does not wait.
#[derive(Debug, Clone, Copy, PartialEq, Eq, Structural)]
pub struct Pending {
    pub source: u32,
    pub session: u64,
}

/// A datagram to send.
#[derive(Debug)]
pub struct OutboundPacket {
    pub socket: u32,
    pub destination: String,
    pub data: Vec<u8>,
}

/// An event and the service it is for.
#[derive(Debug)]
pub struct OwnedEvent {
    pub owner: u32,
    pub event: QuicEvent,
}

/// An answer and who waits for it.
#[derive(Debug)]
pub struct OwedAnswer {
    pub pending: Pending,
    pub answer: Answer,
}

/// A timer to start for an endpoint.
#[derive(Debug, Clone, Copy, PartialEq, Eq, Structural)]
pub struct TimerArm {
    pub socket: u32,
    pub generation: u64,
    pub delay_ms: u64,
}

/// Everything that a step leaves to be sent.
#[derive(Debug)]
pub struct DriveOutput {
    pub packets: Vec<OutboundPacket>,
    pub close_sockets: Vec<u32>,
    pub events: Vec<OwnedEvent>,
    pub replies: Vec<OwedAnswer>,
    pub timer: Option<TimerArm>,
}

/// What an [`OutboundPacket`] says.
#[verifier::ext_equal]
pub struct PacketView {
    pub socket: u32,
    pub destination: Seq<char>,
    pub data: Seq<u8>,
}

/// What a [`DriveOutput`] says.
#[verifier::ext_equal]
pub struct OutputView {
    pub packets: Seq<PacketView>,
    pub close_sockets: Seq<u32>,
    pub events: Seq<(u32, EventView)>,
    pub replies: Seq<(Pending, AnswerView)>,
    pub timer: Option<TimerArm>,
}

impl View for OutboundPacket {
    type V = PacketView;

    open spec fn view(&self) -> PacketView {
        PacketView { socket: self.socket, destination: self.destination@, data: self.data@ }
    }
}

impl View for OwnedEvent {
    type V = (u32, EventView);

    open spec fn view(&self) -> (u32, EventView) {
        (self.owner, self.event@)
    }
}

impl View for OwedAnswer {
    type V = (Pending, AnswerView);

    open spec fn view(&self) -> (Pending, AnswerView) {
        (self.pending, self.answer@)
    }
}

impl View for DriveOutput {
    type V = OutputView;

    open spec fn view(&self) -> OutputView {
        OutputView {
            packets: self.packets@.map_values(|p: OutboundPacket| p@),
            close_sockets: self.close_sockets@,
            events: self.events@.map_values(|e: OwnedEvent| e@),
            replies: self.replies@.map_values(|r: OwedAnswer| r@),
            timer: self.timer,
        }
    }
}

impl OutputView {
    /// Nothing to send.
    pub open spec fn empty() -> OutputView {
        OutputView {
            packets: Seq::empty(),
            close_sockets: Seq::empty(),
            events: Seq::empty(),
            replies: Seq::empty(),
            timer: None,
        }
    }

    /// One more datagram.
    pub open spec fn packet(self, packet: PacketView) -> OutputView {
        OutputView { packets: self.packets.push(packet), ..self }
    }

    /// One more socket to close.
    pub open spec fn close(self, socket: u32) -> OutputView {
        OutputView { close_sockets: self.close_sockets.push(socket), ..self }
    }

    /// One more event.
    pub open spec fn event(self, owner: u32, event: EventView) -> OutputView {
        OutputView { events: self.events.push((owner, event)), ..self }
    }

    /// One more answer.
    pub open spec fn reply(self, pending: Pending, answer: AnswerView) -> OutputView {
        OutputView { replies: self.replies.push((pending, answer)), ..self }
    }

    /// One more answer, where somebody waits for it.
    pub open spec fn reply_to(self, pending: Option<Pending>, answer: AnswerView) -> OutputView {
        match pending {
            Some(pending) => self.reply(pending, answer),
            None => self,
        }
    }

    /// This output followed by another one, whose timer wins.
    pub open spec fn then_all(self, other: OutputView) -> OutputView {
        OutputView {
            packets: self.packets + other.packets,
            close_sockets: self.close_sockets + other.close_sockets,
            events: self.events + other.events,
            replies: self.replies + other.replies,
            timer: if other.timer.is_some() {
                other.timer
            } else {
                self.timer
            },
        }
    }
}

impl Default for DriveOutput {
    /// Nothing to send.
    fn default() -> (output: DriveOutput)
        ensures
            output@ == OutputView::empty(),
    {
        let output = DriveOutput {
            packets: Vec::new(),
            close_sockets: Vec::new(),
            events: Vec::new(),
            replies: Vec::new(),
            timer: None,
        };
        assert(output@ =~= OutputView::empty());
        output
    }
}

impl DriveOutput {
    /// Adds a datagram.
    pub fn packet(&mut self, socket: u32, destination: String, data: Vec<u8>)
        ensures
            final(self)@ == old(self)@.packet(
                (PacketView { socket, destination: destination@, data: data@ }),
            ),
    {
        self.packets.push(OutboundPacket { socket, destination, data });
        assert(self@ =~= old(self)@.packet(
            PacketView { socket, destination: destination@, data: data@ },
        ));
    }

    /// Adds a socket to close.
    pub fn close(&mut self, socket: u32)
        ensures
            final(self)@ == old(self)@.close(socket),
    {
        self.close_sockets.push(socket);
        assert(self@ =~= old(self)@.close(socket));
    }

    /// Adds an event.
    pub fn event(&mut self, owner: u32, event: QuicEvent)
        ensures
            final(self)@ == old(self)@.event(owner, event@),
    {
        self.events.push(OwnedEvent { owner, event });
        assert(self@ =~= old(self)@.event(owner, event@));
    }

    /// Adds an answer.
    pub fn reply(&mut self, pending: Pending, answer: Answer)
        ensures
            final(self)@ == old(self)@.reply(pending, answer@),
    {
        self.replies.push(OwedAnswer { pending, answer });
        assert(self@ =~= old(self)@.reply(pending, answer@));
    }

    /// Adds an answer where somebody waits for it.
    pub fn reply_to(&mut self, pending: Option<Pending>, answer: Answer)
        ensures
            final(self)@ == old(self)@.reply_to(pending, answer@),
    {
        if let Some(pending) = pending {
            self.reply(pending, answer);
        }
    }

    /// Adds everything of another output. Its timer, if it has one, wins.
    pub fn extend(&mut self, other: DriveOutput)
        ensures
            final(self)@ == old(self)@.then_all(other@),
    {
        let ghost added = other@;
        let mut other = other;
        self.packets.append(&mut other.packets);
        self.close_sockets.append(&mut other.close_sockets);
        self.events.append(&mut other.events);
        self.replies.append(&mut other.replies);
        if other.timer.is_some() {
            self.timer = other.timer;
        }
        assert(self@ =~= old(self)@.then_all(added));
    }
}

} // verus!
