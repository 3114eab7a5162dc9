//! What each request and each event of a socket leads to.
//!
//! Reading, writing, accepting and connecting happen elsewhere, in steps: one
//! function says what is to be tried next, another takes what came of it.

use crate::net::command::Answer;
use crate::net::config::NetConfig;
use crate::net::event::{SocketEvent, SocketId};
use crate::net::output::NetOutput;
use crate::net::socket::{Pending, Registration, Sockets, State};
#[allow(unused_imports)]
use crate::net::{
    command::AnswerView,
    event::{text_view, SocketEventView},
    output::NetOutputView,
    socket::{SocketView, SocketsView},
};
use std::collections::VecDeque;
use vstd::prelude::*;

verus! {

/// The largest datagram.
pub const MAX_UDP_PACKAGE: usize = 65535;

/// Where a datagram socket is bound when nothing is said.
pub const ANY_UDP: &'static str = "0.0.0.0:0";

/// What the owner of a socket that is closed is told.
#[derive(Debug)]
pub enum Farewell {
    /// Nothing: the socket never came up, and whoever asked for it is answered
    /// otherwise.
    Silent,
    /// That it is closed.
    Closed,
    /// That it failed, and why.
    Failed(String),
}

/// What a [`Farewell`] says.
#[verifier::ext_equal]
pub enum FarewellView {
    Silent,
    Closed,
    Failed(Seq<char>),
}

impl View for Farewell {
    type V = FarewellView;

    open spec fn view(&self) -> FarewellView {
        match *self {
            Farewell::Silent => FarewellView::Silent,
            Farewell::Closed => FarewellView::Closed,
            Farewell::Failed(reason) => FarewellView::Failed(reason@),
        }
    }
}

/// What came of a write.
#[derive(Debug)]
pub enum WriteResult {
    Wrote(usize),
    WouldBlock,
    Interrupted,
    Failed(String),
}

/// What came of a read from a stream.
#[derive(Debug)]
pub enum ReadResult {
    Data(Vec<u8>),
    Eof,
    WouldBlock,
    Interrupted,
    Failed(String),
}

/// What came of receiving a datagram.
#[derive(Debug)]
pub enum UdpResult {
    Datagram { from: String, data: Vec<u8> },
    WouldBlock,
    Interrupted,
    Failed(String),
}

/// What to do after a step.
#[derive(Debug, Clone, Copy, PartialEq, Eq, Structural)]
pub enum Next {
    /// Try again.
    Again,
    /// Bring the registration of the socket up to date, and stop.
    Apply,
    /// Stop.
    Stop,
}

/// What there is to write.
#[derive(Debug, Clone, Copy, PartialEq, Eq, Structural)]
pub enum FlushStep {
    /// The socket is gone, or is none that is written to.
    Nothing,
    /// The chunk in front of the queue.
    Write,
    /// Everything is written.
    Drained,
}

/// The socket layer's books.
#[derive(Debug)]
pub struct NetCore {
    pub sockets: Sockets,
    pub config: NetConfig,
}

/// Books and output together.
pub struct NetStep {
    pub sockets: SocketsView,
    pub output: NetOutputView,
}

impl NetStep {
    /// What closing a socket leaves: whoever waits for it is answered, and
    /// its owner is told.
    pub open spec fn closed(self, id: SocketId, farewell: FarewellView) -> NetStep {
        match self.sockets.get(id) {
            None => self,
            Some(socket) => {
                let answered = match farewell {
                    FarewellView::Silent => self.output,
                    FarewellView::Closed => self.output.reply_to(
                        socket.pending,
                        AnswerView::Done,
                    ),
                    FarewellView::Failed(reason) => self.output.reply_to(
                        socket.pending,
                        AnswerView::Failed(reason),
                    ),
                };
                let released = answered.reply_all(
                    socket.send_waiters,
                    AnswerView::Failed(
                        match farewell {
                            FarewellView::Failed(reason) => reason,
                            _ => "连接已关闭"@,
                        },
                    ),
                );
                let told = match farewell {
                    FarewellView::Silent => released,
                    FarewellView::Closed => released.event(
                        socket.owner,
                        SocketEventView::Close { id },
                    ),
                    FarewellView::Failed(reason) => released.event(
                        socket.owner,
                        SocketEventView::Error { id, reason },
                    ),
                };
                NetStep { sockets: self.sockets.removed(id), output: told }
            },
        }
    }

    /// With the peer sending no more: what waits is still written, and with
    /// nothing waiting the socket is closed.
    pub open spec fn peer_closed(self, id: SocketId) -> NetStep {
        match self.sockets.get(id) {
            None => self,
            Some(socket) => if socket.wb.is_empty() {
                self.closed(id, FarewellView::Closed)
            } else {
                NetStep {
                    sockets: self.sockets.with(
                        SocketView { state: State::HalfCloseRead, ..socket },
                    ),
                    ..self
                }
            },
        }
    }
}

/// The address that a datagram socket is bound to: the one asked for, or any.
pub fn udp_address(bind: Option<String>) -> (addr: String)
    ensures
        addr@ == (match bind {
            Some(bind) => bind@,
            None => ANY_UDP@,
        }),
{
    match bind {
        Some(bind) => bind,
        None => ANY_UDP.to_owned(),
    }
}

/// The address that a datagram socket for a peer is bound to: any of the
/// peer's family.
pub fn wildcard_for_peer(peer_is_v6: bool) -> (addr: &'static str)
    ensures
        addr@ == (if peer_is_v6 {
            "[::]:0"@
        } else {
            ANY_UDP@
        }),
{
    if peer_is_v6 {
        "[::]:0"
    } else {
        ANY_UDP
    }
}

/// The text of a socket that is not there.
pub open spec fn missing_text(id: SocketId) -> Seq<char> {
    id.name() + " 不存在，可能已经关了"@
}

/// The answer about a socket that is not there.
pub fn missing(id: SocketId) -> (answer: Answer)
    ensures
        answer@ == AnswerView::Failed(missing_text(id)),
{
    let mut reason = id.text();
    reason.append(" 不存在，可能已经关了");
    Answer::Failed(reason)
}

/// Two pieces of text in one.
pub(crate) fn joined(first: &str, second: &str) -> (text: String)
    ensures
        text@ == first@ + second@,
{
    let mut text = first.to_owned();
    text.append(second);
    text
}

/// Gives several waiting callers the same failure.
fn refuse_all(waiters: &VecDeque<Pending>, reason: &str, output: &mut NetOutput)
    ensures
        final(output)@ == old(output)@.reply_all(waiters@, AnswerView::Failed(reason@)),
{
    let mut i: usize = 0;
    assert(waiters@.take(0) =~= Seq::empty());
    while i < waiters.len()
        invariant
            i <= waiters@.len(),
            output@ == old(output)@.reply_all(
                waiters@.take(i as int),
                AnswerView::Failed(reason@),
            ),
        decreases waiters@.len() - i,
    {
        output.reply(waiters[i], Answer::Failed(reason.to_owned()));
        assert(waiters@.take(i + 1).drop_last() =~= waiters@.take(i as int));
        i = i + 1;
    }
    assert(waiters@.take(i as int) =~= waiters@);
}

/// Tells several waiting callers that it is done.
pub(crate) fn release_all(waiters: &VecDeque<Pending>, output: &mut NetOutput)
    ensures
        final(output)@ == old(output)@.reply_all(waiters@, AnswerView::Done),
{
    let mut i: usize = 0;
    assert(waiters@.take(0) =~= Seq::empty());
    while i < waiters.len()
        invariant
            i <= waiters@.len(),
            output@ == old(output)@.reply_all(waiters@.take(i as int), AnswerView::Done),
        decreases waiters@.len() - i,
    {
        output.reply(waiters[i], Answer::Done);
        assert(waiters@.take(i + 1).drop_last() =~= waiters@.take(i as int));
        i = i + 1;
    }
    assert(waiters@.take(i as int) =~= waiters@);
}

/// Taking a socket out to put it back changed is changing it.
pub proof fn lemma_changed(sockets: SocketsView, socket: SocketView)
    requires
        sockets.wf(),
        sockets.get(socket.id) is Some,
    ensures
        sockets.removed(socket.id).with(socket) == sockets.with(socket),
        sockets.removed(socket.id).slot_of(socket.id) == sockets.slot_of(socket.id),
{
    assert(sockets.removed(socket.id).with(socket).slots =~= sockets.with(socket).slots);
}

/// A socket that is there stands in its slot and has a number.
pub proof fn lemma_found(sockets: SocketsView, id: SocketId)
    requires
        sockets.wf(),
        sockets.get(id) is Some,
    ensures
        sockets.get(id)->0.id == id,
        sockets.get(id)->0.slot == sockets.slot_of(id),
        id.0 > 0,
        0 <= sockets.slot_of(id) < sockets.slots.len(),
{
    assert(0 <= id.0 as int % sockets.slots.len() as int) by (nonlinear_arith)
        requires
            sockets.slots.len() > 0,
    ;
    assert((id.0 as int % sockets.slots.len() as int) < sockets.slots.len()) by (nonlinear_arith)
        requires
            sockets.slots.len() > 0,
    ;
    assert(sockets.slots[sockets.slot_of(id)] is Some);
}

impl NetCore {
    /// The books fit together.
    pub open spec fn wf(&self) -> bool {
        self.sockets.wf()
    }

    /// Books and output together.
    pub open spec fn step(&self, output: NetOutputView) -> NetStep {
        NetStep { sockets: self.sockets@, output }
    }

    /// Empty books.
    pub fn new(config: NetConfig) -> (core: NetCore)
        requires
            config.acceptable(),
        ensures
            core.wf(),
            core.config == config,
            core.sockets@.slots.len() == config.max_socket,
            forall|i: int|
                0 <= i < config.max_socket ==> (#[trigger] core.sockets@.slots[i]) is None,
            core.sockets@.next == 1,
            core.sockets@.floor == config.min_read_buffer,
    {
        NetCore { sockets: Sockets::new(config.max_socket, config.min_read_buffer), config }
    }

    /// Closes a socket.
    pub fn close(&mut self, id: SocketId, farewell: Farewell, output: &mut NetOutput)
        requires
            old(self).wf(),
        ensures
            final(self).wf(),
            final(self).config == old(self).config,
            final(self).step(final(output)@) == old(self).step(old(output)@).closed(
                id,
                farewell@,
            ),
            final(self).sockets@.get(id) is None,
    {
        let socket = match self.sockets.remove(id) {
            None => {
                return;
            },
            Some(socket) => socket,
        };
        match &farewell {
            Farewell::Silent => {
                refuse_all(&socket.send_waiters, "连接已关闭", output);
            },
            Farewell::Closed => {
                output.reply_to(socket.pending, Answer::Done);
                refuse_all(&socket.send_waiters, "连接已关闭", output);
            },
            Farewell::Failed(reason) => {
                output.reply_to(socket.pending, Answer::Failed(reason.clone()));
                refuse_all(&socket.send_waiters, reason.as_str(), output);
            },
        }
        match farewell {
            Farewell::Silent => {},
            Farewell::Closed => {
                output.event(socket.owner, SocketEvent::Close { id });
            },
            Farewell::Failed(reason) => {
                output.event(socket.owner, SocketEvent::Error { id, reason });
            },
        }
    }

    /// The peer sends no more. With something left to write the socket's
    /// registration is to be brought up to date.
    pub fn peer_closed(&mut self, id: SocketId, output: &mut NetOutput) -> (next: Next)
        requires
            old(self).wf(),
        ensures
            final(self).wf(),
            final(self).config == old(self).config,
            final(self).step(final(output)@) == old(self).step(old(output)@).peer_closed(id),
            next == (if final(self).sockets@.get(id) is Some {
                Next::Apply
            } else {
                Next::Stop
            }),
    {
        let empty = match self.sockets.get(id) {
            None => {
                return Next::Stop;
            },
            Some(socket) => socket.wb.is_empty(),
        };
        if empty {
            self.close(id, Farewell::Closed, output);
            return Next::Stop;
        }
        let ghost before = self.sockets@;
        if let Some(socket) = self.sockets.remove(id) {
            let mut socket = socket;
            proof {
                lemma_found(before, id);
            }
            socket.state = State::HalfCloseRead;
            proof {
                lemma_changed(before, socket@);
            }
            self.sockets.restore(socket);
        }
        Next::Apply
    }

    /// The registration change that a socket needs.
    pub fn registration(&self, id: SocketId) -> (registration: Registration)
        requires
            self.wf(),
        ensures
            registration == (match self.sockets@.get(id) {
                Some(socket) => socket.registration(),
                None => Registration::Keep,
            }),
    {
        match self.sockets.get(id) {
            Some(socket) => socket.registration(),
            None => Registration::Keep,
        }
    }

    /// Notes that the registration change was made.
    pub fn registered(&mut self, id: SocketId)
        requires
            old(self).wf(),
        ensures
            final(self).wf(),
            final(self).config == old(self).config,
            final(self).sockets@ == (match old(self).sockets@.get(id) {
                Some(socket) => old(self).sockets@.with(socket.applied()),
                None => old(self).sockets@,
            }),
    {
        let ghost before = self.sockets@;
        if let Some(socket) = self.sockets.remove(id) {
            let mut socket = socket;
            proof {
                lemma_found(before, id);
            }
            socket.apply();
            proof {
                lemma_changed(before, socket@);
            }
            self.sockets.restore(socket);
        }
    }

    /// Notes the addresses of a socket.
    pub fn set_addresses(&mut self, id: SocketId, local: Option<String>, peer: Option<String>)
        requires
            old(self).wf(),
        ensures
            final(self).wf(),
            final(self).config == old(self).config,
            final(self).sockets@ == (match old(self).sockets@.get(id) {
                Some(socket) => old(self).sockets@.with(
                    SocketView { local: text_view(local), peer: text_view(peer), ..socket },
                ),
                None => old(self).sockets@,
            }),
    {
        let ghost before = self.sockets@;
        if let Some(socket) = self.sockets.remove(id) {
            let mut socket = socket;
            proof {
                lemma_found(before, id);
            }
            socket.local = local;
            socket.peer = peer;
            proof {
                lemma_changed(before, socket@);
            }
            self.sockets.restore(socket);
        }
    }
}

} // verus!
