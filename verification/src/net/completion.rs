//! What came of the things done outside: sockets that were bound or connected,
//! registrations that were changed, queues that were written out.

use crate::net::command::Answer;
use crate::net::event::SocketId;
use crate::net::output::NetOutput;
use crate::net::request::Purpose;
use crate::net::service::{joined, Farewell, NetCore, Next};
use crate::net::socket::{Kind, Pending, State};
#[allow(unused_imports)]
use crate::net::{
    command::AnswerView,
    event::text_view,
    service::{lemma_changed, lemma_found, FarewellView, NetStep},
    socket::{SocketView, SocketsView},
};
use std::collections::VecDeque;
use vstd::prelude::*;

verus! {

/// Several addresses as mathematical values.
pub open spec fn texts(addrs: Seq<String>) -> Seq<Seq<char>> {
    addrs.map_values(|a: String| a@)
}

/// What to do with the addresses that a name stands for.
#[derive(Debug)]
pub enum Found {
    /// They serve the purpose: the first one, or for a connection all in
    /// turn.
    Use(Purpose, VecDeque<String>),
    /// There is none, and the caller was told.
    Nothing,
}

/// What a connection that came up or failed leads to.
#[derive(Debug)]
#[allow(inconsistent_fields)]
pub enum ConnectNext {
    /// The socket is gone.
    Nothing,
    /// It is up: bring its registration up to date and say how that went.
    Register { waiting: Option<Pending> },
    /// It failed: try the other addresses.
    Retry { waiting: Pending, addrs: VecDeque<String>, deadline_ms: Option<u64> },
}

/// What an event of a socket leads to.
#[derive(Debug, Clone, Copy, PartialEq, Eq, Structural)]
pub struct Ready {
    pub id: SocketId,
    pub kind: Kind,
}

impl SocketView {
    /// What is tried when the address of a connection fails: for whom, which
    /// addresses, and until when.
    pub open spec fn to_retry(self) -> Option<(Pending, Seq<Seq<char>>, Option<u64>)> {
        match self.pending {
            Some(pending) => if self.connect_fallbacks.len() > 0 {
                Some((pending, self.connect_fallbacks, self.connect_deadline_ms))
            } else {
                None
            },
            None => None,
        }
    }
}

impl NetStep {
    /// With a bound listener entered, or a refusal.
    pub open spec fn listening(self, pending: Pending) -> NetStep {
        let (sockets, id) = self.sockets.inserted(pending.source, Kind::Listener, State::PreListen);
        let after = NetStep { sockets, ..self };
        match id {
            Some(id) => after.answered(pending, AnswerView::Id(id)),
            None => after.answered(
                pending,
                AnswerView::Failed("槽位已满，开不了新的监听口"@),
            ),
        }
    }

    /// With a datagram socket entered, to be registered, or a refusal.
    pub open spec fn udp_opened(self, pending: Pending, peer: Option<Seq<char>>) -> (
        NetStep,
        Option<SocketId>,
    ) {
        let (sockets, id) = self.sockets.inserted(pending.source, Kind::Udp, State::Connected);
        match id {
            Some(id) => (
                NetStep {
                    sockets: sockets.with(SocketView { udp_peer: peer, ..sockets.get(id)->0 }),
                    ..self
                },
                Some(id),
            ),
            None => (
                NetStep { sockets, ..self }.answered(
                    pending,
                    AnswerView::Failed("槽位已满，开不了新的 UDP 端口"@),
                ),
                None,
            ),
        }
    }

    /// With a connection on its way entered, to be registered, or a refusal.
    pub open spec fn connecting(
        self,
        pending: Pending,
        fallbacks: Seq<Seq<char>>,
        deadline_ms: Option<u64>,
    ) -> (NetStep, Option<SocketId>) {
        let (sockets, id) = self.sockets.inserted(
            pending.source,
            Kind::Stream,
            State::Connecting,
        );
        match id {
            Some(id) => (
                NetStep {
                    sockets: sockets.with(
                        SocketView {
                            pending: Some(pending),
                            connect_fallbacks: fallbacks,
                            connect_deadline_ms: deadline_ms,
                            ..sockets.get(id)->0
                        },
                    ),
                    ..self
                },
                Some(id),
            ),
            None => (
                NetStep { sockets, ..self }.answered(
                    pending,
                    AnswerView::Failed("槽位已满，连不了新的连接"@),
                ),
                None,
            ),
        }
    }

    /// What a connection that came up or failed leaves.
    pub open spec fn connect_decided(self, id: SocketId, failure: Option<Seq<char>>) -> NetStep {
        match self.sockets.get(id) {
            None => self,
            Some(socket) => match failure {
                None => NetStep {
                    sockets: self.sockets.with(
                        SocketView {
                            state: State::Connected,
                            pending: None,
                            connect_fallbacks: Seq::empty(),
                            ..socket
                        },
                    ),
                    ..self
                },
                Some(error) => {
                    let closed = self.closed(id, FarewellView::Silent);
                    if socket.connect_fallbacks.len() == 0 {
                        NetStep {
                            output: closed.output.reply_to(
                                socket.pending,
                                AnswerView::Failed("连接失败："@ + error),
                            ),
                            ..closed
                        }
                    } else {
                        closed
                    }
                },
            },
        }
    }

    /// What the writing out of a queue leaves for whoever sent the bytes: the
    /// answer, now or when fewer bytes wait.
    pub open spec fn sent(self, pending: Pending, id: SocketId, wait: bool, high: int) -> NetStep {
        match self.sockets.get(id) {
            Some(socket) => if wait && socket.wb.size() >= high && socket.wb.size() > 0 {
                NetStep {
                    sockets: self.sockets.with(
                        SocketView { send_waiters: socket.send_waiters.push(pending), ..socket },
                    ),
                    ..self
                }
            } else {
                self.answered(pending, AnswerView::Done)
            },
            None => self.answered(pending, AnswerView::Done),
        }
    }

    /// What the writing out of a queue leaves for whoever asked to close: the
    /// end, or the wait for it.
    pub open spec fn closing(self, pending: Pending, id: SocketId) -> NetStep {
        match self.sockets.get(id) {
            None => self.answered(pending, AnswerView::Done),
            Some(socket) => if socket.wb.is_empty() {
                self.closed(id, FarewellView::Closed).answered(pending, AnswerView::Done)
            } else {
                NetStep {
                    sockets: self.sockets.with(
                        SocketView {
                            state: State::HalfCloseWrite,
                            pending: Some(pending),
                            ..socket
                        },
                    ),
                    ..self
                }
            },
        }
    }
}

/// A failure with its reason behind a few words.
fn failed(words: &str, reason: &str) -> (answer: Answer)
    ensures
        answer@ == AnswerView::Failed(words@ + reason@),
{
    Answer::Failed(joined(words, reason))
}

impl NetCore {
    /// The socket that an event names, and what it is.
    pub fn identify(&self, token: usize) -> (ready: Option<Ready>)
        ensures
            ready == (if token < self.sockets@.slots.len() {
                match self.sockets@.slots[token as int] {
                    Some(socket) => Some(Ready { id: socket.id, kind: socket.kind }),
                    None => None,
                }
            } else {
                None
            }),
    {
        match self.sockets.by_token(token) {
            Some(socket) => Some(Ready { id: socket.id, kind: socket.kind }),
            None => None,
        }
    }

    /// Whether a writable socket is one whose connection is decided by that.
    pub fn is_connecting(&self, id: SocketId) -> (connecting: bool)
        requires
            self.wf(),
        ensures
            connecting == (self.sockets@.get(id) matches Some(socket) && socket.state
                == State::Connecting),
    {
        match self.sockets.get(id) {
            Some(socket) => socket.state == State::Connecting,
            None => false,
        }
    }

    /// A socket reports an error.
    pub fn on_error(&mut self, id: SocketId, reason: Option<String>, output: &mut NetOutput)
        requires
            old(self).wf(),
        ensures
            final(self).wf(),
            final(self).config == old(self).config,
            final(self).step(final(output)@) == old(self).step(old(output)@).closed(
                id,
                FarewellView::Failed(
                    match reason {
                        Some(reason) => reason@,
                        None => "连接出错"@,
                    },
                ),
            ),
    {
        let reason = match reason {
            Some(reason) => reason,
            None => "连接出错".to_owned(),
        };
        self.close(id, Farewell::Failed(reason), output);
    }

    /// The addresses that a name stands for were found.
    pub fn resolved(
        &self,
        pending: Pending,
        purpose: Purpose,
        addrs: VecDeque<String>,
        output: &mut NetOutput,
    ) -> (found: Found)
        ensures
            addrs@.len() == 0 ==> found == Found::Nothing && final(output)@ == old(output)@.reply(
                pending,
                AnswerView::Failed("解析结果是空的"@),
            ),
            addrs@.len() > 0 ==> found == Found::Use(purpose, addrs) && final(output)@ == old(
                output)@,
    {
        if addrs.len() == 0 {
            output.reply(pending, Answer::Failed("解析结果是空的".to_owned()));
            return Found::Nothing;
        }
        Found::Use(purpose, addrs)
    }

    /// A listener was bound, or why not.
    pub fn do_listen(
        &mut self,
        pending: Pending,
        addr: &str,
        bound: Result<(), String>,
        output: &mut NetOutput,
    )
        requires
            old(self).wf(),
        ensures
            final(self).wf(),
            final(self).config == old(self).config,
            final(self).step(final(output)@) == (match bound {
                Ok(()) => old(self).step(old(output)@).listening(pending),
                Err(error) => old(self).step(old(output)@).answered(
                    pending,
                    AnswerView::Failed("绑定 "@ + addr@ + " 失败："@ + error@),
                ),
            }),
    {
        if let Err(error) = bound {
            let mut reason = joined("绑定 ", addr);
            reason.append(" 失败：");
            reason.append(error.as_str());
            output.reply(pending, Answer::Failed(reason));
            return;
        }
        match self.sockets.insert(pending.source, Kind::Listener, State::PreListen) {
            Some(id) => {
                output.reply(pending, Answer::Id(id));
            },
            None => {
                output.reply(
                    pending,
                    Answer::Failed("槽位已满，开不了新的监听口".to_owned()),
                );
            },
        }
    }

    /// A datagram socket was bound, or why not. One that was entered is to be
    /// registered.
    pub fn do_udp(
        &mut self,
        pending: Pending,
        addr: &str,
        peer: Option<String>,
        bound: Result<(), String>,
        output: &mut NetOutput,
    ) -> (id: Option<SocketId>)
        requires
            old(self).wf(),
        ensures
            final(self).wf(),
            final(self).config == old(self).config,
            match bound {
                Ok(()) => (final(self).step(final(output)@), id) == old(self).step(
                    old(output)@,
                ).udp_opened(pending, text_view(peer)),
                Err(error) => id is None && final(self).step(final(output)@) == old(self).step(
                    old(output)@,
                ).answered(
                    pending,
                    AnswerView::Failed("绑定 UDP "@ + addr@ + " 失败："@ + error@),
                ),
            },
    {
        if let Err(error) = bound {
            let mut reason = joined("绑定 UDP ", addr);
            reason.append(" 失败：");
            reason.append(error.as_str());
            output.reply(pending, Answer::Failed(reason));
            return None;
        }
        match self.sockets.insert(pending.source, Kind::Udp, State::Connected) {
            Some(id) => {
                let ghost inserted = self.sockets@;
                if let Some(socket) = self.sockets.remove(id) {
                    let mut socket = socket;
                    proof {
                        lemma_found(inserted, id);
                    }
                    socket.udp_peer = peer;
                    proof {
                        lemma_changed(inserted, socket@);
                    }
                    self.sockets.restore(socket);
                }
                Some(id)
            },
            None => {
                output.reply(
                    pending,
                    Answer::Failed("槽位已满，开不了新的 UDP 端口".to_owned()),
                );
                None
            },
        }
    }

    /// A new socket was registered, or why not: then it goes and its caller is
    /// told.
    pub fn udp_registered(
        &mut self,
        pending: Pending,
        id: SocketId,
        registered: Result<(), String>,
        output: &mut NetOutput,
    )
        requires
            old(self).wf(),
        ensures
            final(self).wf(),
            final(self).config == old(self).config,
            match registered {
                Ok(()) => final(output)@ == old(output)@.reply(pending, AnswerView::Id(id))
                    && final(self).sockets@ == (match old(self).sockets@.get(id) {
                    Some(socket) => old(self).sockets@.with(socket.applied()),
                    None => old(self).sockets@,
                }),
                Err(error) => final(output)@ == old(output)@.reply(
                    pending,
                    AnswerView::Failed("注册进 poll 失败："@ + error@),
                ) && final(self).sockets@ == old(self).sockets@.removed(id),
            },
    {
        match registered {
            Ok(()) => {
                self.registered(id);
                output.reply(pending, Answer::Id(id));
            },
            Err(error) => {
                let _ = self.sockets.remove(id);
                output.reply(pending, failed("注册进 poll 失败：", error.as_str()));
            },
        }
    }

    /// A connection is on its way, and these are the addresses left to try.
    /// One that was entered is to be registered.
    pub fn connect_started(
        &mut self,
        pending: Pending,
        fallbacks: VecDeque<String>,
        deadline_ms: Option<u64>,
        output: &mut NetOutput,
    ) -> (id: Option<SocketId>)
        requires
            old(self).wf(),
        ensures
            final(self).wf(),
            final(self).config == old(self).config,
            (final(self).step(final(output)@), id) == old(self).step(old(output)@).connecting(
                pending,
                texts(fallbacks@),
                deadline_ms,
            ),
    {
        match self.sockets.insert(pending.source, Kind::Stream, State::Connecting) {
            Some(id) => {
                let ghost inserted = self.sockets@;
                if let Some(socket) = self.sockets.remove(id) {
                    let mut socket = socket;
                    proof {
                        lemma_found(inserted, id);
                    }
                    socket.pending = Some(pending);
                    socket.connect_fallbacks = fallbacks;
                    socket.connect_deadline_ms = deadline_ms;
                    proof {
                        lemma_changed(inserted, socket@);
                    }
                    self.sockets.restore(socket);
                }
                Some(id)
            },
            None => {
                output.reply(
                    pending,
                    Answer::Failed("槽位已满，连不了新的连接".to_owned()),
                );
                None
            },
        }
    }

    /// A connection on its way was registered, or why not: then it goes and
    /// its caller is told.
    pub fn connect_registered(
        &mut self,
        pending: Pending,
        id: SocketId,
        registered: Result<(), String>,
        output: &mut NetOutput,
    )
        requires
            old(self).wf(),
        ensures
            final(self).wf(),
            final(self).config == old(self).config,
            match registered {
                Ok(()) => final(output)@ == old(output)@ && final(self).sockets@ == (match old(
                    self).sockets@.get(id) {
                    Some(socket) => old(self).sockets@.with(socket.applied()),
                    None => old(self).sockets@,
                }),
                Err(error) => final(self).step(final(output)@) == old(self).step(
                    old(output)@,
                ).closed(id, FarewellView::Silent).answered(
                    pending,
                    AnswerView::Failed("注册进 poll 失败："@ + error@),
                ),
            },
    {
        match registered {
            Ok(()) => {
                self.registered(id);
            },
            Err(error) => {
                self.close(id, Farewell::Silent, output);
                output.reply(pending, failed("注册进 poll 失败：", error.as_str()));
            },
        }
    }

    /// No address is left to try: the caller is told the last failure.
    pub fn connect_exhausted(
        &self,
        pending: Pending,
        last: Option<(String, String)>,
        output: &mut NetOutput,
    )
        ensures
            final(output)@ == old(output)@.reply(
                pending,
                AnswerView::Failed(
                    match last {
                        Some((addr, error)) => "连 "@ + addr@ + " 失败："@ + error@,
                        None => "解析结果是空的，无法建立连接"@,
                    },
                ),
            ),
    {
        let reason = match last {
            Some((addr, error)) => {
                let mut reason = joined("连 ", addr.as_str());
                reason.append(" 失败：");
                reason.append(error.as_str());
                reason
            },
            None => "解析结果是空的，无法建立连接".to_owned(),
        };
        output.reply(pending, Answer::Failed(reason));
    }

    /// A connection came up, or why not. One that failed is tried again with
    /// the next address, if there is one and somebody waits.
    pub fn finish_connect(
        &mut self,
        id: SocketId,
        failure: Option<String>,
        output: &mut NetOutput,
    ) -> (next: ConnectNext)
        requires
            old(self).wf(),
        ensures
            final(self).wf(),
            final(self).config == old(self).config,
            final(self).step(final(output)@) == old(self).step(old(output)@).connect_decided(
                id,
                text_view(failure),
            ),
            match old(self).sockets@.get(id) {
                None => next is Nothing,
                Some(socket) => match failure {
                    None => next == (ConnectNext::Register { waiting: socket.pending }),
                    Some(_) => match socket.to_retry() {
                        Some((caller, others, deadline)) => next matches ConnectNext::Retry {
                            waiting,
                            addrs,
                            deadline_ms,
                        } && waiting == caller && texts(addrs@) == others && deadline_ms
                            == deadline,
                        None => next is Nothing,
                    },
                },
            },
    {
        let ghost before = self.sockets@;
        match failure {
            None => {
                match self.sockets.remove(id) {
                    None => ConnectNext::Nothing,
                    Some(socket) => {
                        let mut socket = socket;
                        proof {
                            lemma_found(before, id);
                        }
                        let waiting = socket.pending.take();
                        socket.connect_fallbacks = VecDeque::new();
                        socket.state = State::Connected;
                        proof {
                            assert(socket@.connect_fallbacks =~= Seq::empty());
                            lemma_changed(before, socket@);
                        }
                        self.sockets.restore(socket);
                        ConnectNext::Register { waiting }
                    },
                }
            },
            Some(error) => {
                let (waiting, deadline_ms) = match self.sockets.get(id) {
                    None => {
                        return ConnectNext::Nothing;
                    },
                    Some(socket) => (socket.pending, socket.connect_deadline_ms),
                };
                let ghost start = before.get(id)->0;
                let addrs = self.take_fallbacks(id);
                proof {
                    lemma_taken_fallbacks(self.step(output@), before, id);
                }
                self.close(id, Farewell::Silent, output);
                if addrs.len() == 0 {
                    output.reply_to(waiting, failed("连接失败：", error.as_str()));
                    return ConnectNext::Nothing;
                }
                match waiting {
                    Some(waiting) => ConnectNext::Retry { waiting, addrs, deadline_ms },
                    None => ConnectNext::Nothing,
                }
            },
        }
    }

    /// Takes the addresses that are left to try.
    fn take_fallbacks(&mut self, id: SocketId) -> (addrs: VecDeque<String>)
        requires
            old(self).wf(),
            old(self).sockets@.get(id) is Some,
        ensures
            final(self).wf(),
            final(self).config == old(self).config,
            final(self).sockets@ == old(self).sockets@.with(
                SocketView {
                    connect_fallbacks: Seq::empty(),
                    ..old(self).sockets@.get(id)->0
                },
            ),
            texts(addrs@) == old(self).sockets@.get(id)->0.connect_fallbacks,
    {
        let ghost before = self.sockets@;
        let mut addrs: VecDeque<String> = VecDeque::new();
        if let Some(socket) = self.sockets.remove(id) {
            let mut socket = socket;
            proof {
                lemma_found(before, id);
            }
            std::mem::swap(&mut addrs, &mut socket.connect_fallbacks);
            proof {
                assert(socket@.connect_fallbacks =~= Seq::empty());
                lemma_changed(before, socket@);
            }
            self.sockets.restore(socket);
        }
        addrs
    }

    /// A connection that came up was registered, or why not: then it goes and
    /// its caller is told.
    pub fn connect_finished(
        &mut self,
        id: SocketId,
        waiting: Option<Pending>,
        registered: Result<(), String>,
        output: &mut NetOutput,
    )
        requires
            old(self).wf(),
        ensures
            final(self).wf(),
            final(self).config == old(self).config,
            match registered {
                Ok(()) => final(output)@ == old(output)@.reply_to(waiting, AnswerView::Id(id))
                    && final(self).sockets@ == (match old(self).sockets@.get(id) {
                    Some(socket) => old(self).sockets@.with(socket.applied()),
                    None => old(self).sockets@,
                }),
                Err(error) => {
                    let closed = old(self).step(old(output)@).closed(id, FarewellView::Silent);
                    final(self).sockets@ == closed.sockets && final(output)@
                        == closed.output.reply_to(
                        waiting,
                        AnswerView::Failed(
                            "连接成功，但更新 poll 注册失败："@ + error@,
                        ),
                    )
                },
            },
    {
        match registered {
            Ok(()) => {
                self.registered(id);
                output.reply_to(waiting, Answer::Id(id));
            },
            Err(error) => {
                self.close(id, Farewell::Silent, output);
                output.reply_to(
                    waiting,
                    failed("连接成功，但更新 poll 注册失败：", error.as_str()),
                );
            },
        }
    }

    /// A started socket was registered, or why not: then it is closed.
    pub fn start_registered(
        &mut self,
        pending: Pending,
        id: SocketId,
        registered: Result<(), String>,
        output: &mut NetOutput,
    )
        requires
            old(self).wf(),
        ensures
            final(self).wf(),
            final(self).config == old(self).config,
            match registered {
                Ok(()) => final(output)@ == old(output)@ && final(self).sockets@ == (match old(
                    self).sockets@.get(id) {
                    Some(socket) => old(self).sockets@.with(socket.applied()),
                    None => old(self).sockets@,
                }),
                Err(error) => final(self).step(final(output)@) == ({
                    let reason = id.name() + " 注册进 poll 失败："@ + error@;
                    old(self).step(old(output)@).closed(
                        id,
                        FarewellView::Failed(reason),
                    ).answered(pending, AnswerView::Failed(reason))
                }),
            },
    {
        match registered {
            Ok(()) => {
                self.registered(id);
            },
            Err(error) => {
                let mut reason = id.text();
                reason.append(" 注册进 poll 失败：");
                reason.append(error.as_str());
                self.close(id, Farewell::Failed(reason.clone()), output);
                output.reply(pending, Answer::Failed(reason));
            },
        }
    }

    /// A paused socket was registered, or why not.
    pub fn pause_registered(
        &mut self,
        pending: Pending,
        id: SocketId,
        registered: Result<(), String>,
        output: &mut NetOutput,
    )
        requires
            old(self).wf(),
        ensures
            final(self).wf(),
            final(self).config == old(self).config,
            match registered {
                Ok(()) => final(output)@ == old(output)@.reply(pending, AnswerView::Done)
                    && final(self).sockets@ == (match old(self).sockets@.get(id) {
                    Some(socket) => old(self).sockets@.with(socket.applied()),
                    None => old(self).sockets@,
                }),
                Err(error) => final(self).step(final(output)@) == old(self).step(
                    old(output)@,
                ).answered(
                    pending,
                    AnswerView::Failed(id.name() + " 摘不掉读事件："@ + error@),
                ),
            },
    {
        match registered {
            Ok(()) => {
                self.registered(id);
                output.reply(pending, Answer::Done);
            },
            Err(error) => {
                let mut reason = id.text();
                reason.append(" 摘不掉读事件：");
                reason.append(error.as_str());
                output.reply(pending, Answer::Failed(reason));
            },
        }
    }

    /// A queue was written out as far as it went, after bytes were sent.
    pub fn send_flushed(
        &mut self,
        pending: Pending,
        id: SocketId,
        wait: bool,
        output: &mut NetOutput,
    )
        requires
            old(self).wf(),
        ensures
            final(self).wf(),
            final(self).config == old(self).config,
            final(self).step(final(output)@) == old(self).step(old(output)@).sent(
                pending,
                id,
                wait,
                old(self).config.warn_size as int,
            ),
    {
        let crowded = match self.sockets.get(id) {
            Some(socket) => socket.wb.size() >= self.config.warn_size && socket.wb.size() > 0,
            None => false,
        };
        if !(wait && crowded) {
            output.reply(pending, Answer::Done);
            return;
        }
        let ghost before = self.sockets@;
        if let Some(socket) = self.sockets.remove(id) {
            let mut socket = socket;
            proof {
                lemma_found(before, id);
            }
            socket.send_waiters.push_back(pending);
            proof {
                lemma_changed(before, socket@);
            }
            self.sockets.restore(socket);
        }
    }

    /// A queue was written out as far as it went, before a close. With bytes
    /// left the registration is to be brought up to date.
    pub fn close_flushed(&mut self, pending: Pending, id: SocketId, output: &mut NetOutput) -> (next:
        Next)
        requires
            old(self).wf(),
        ensures
            final(self).wf(),
            final(self).config == old(self).config,
            final(self).step(final(output)@) == old(self).step(old(output)@).closing(pending, id),
            next == (if final(self).sockets@.get(id) is Some {
                Next::Apply
            } else {
                Next::Stop
            }),
    {
        let empty = match self.sockets.get(id) {
            None => {
                output.reply(pending, Answer::Done);
                return Next::Stop;
            },
            Some(socket) => socket.wb.is_empty(),
        };
        if empty {
            self.close(id, Farewell::Closed, output);
            output.reply(pending, Answer::Done);
            return Next::Stop;
        }
        let ghost before = self.sockets@;
        if let Some(socket) = self.sockets.remove(id) {
            let mut socket = socket;
            proof {
                lemma_found(before, id);
            }
            socket.state = State::HalfCloseWrite;
            socket.pending = Some(pending);
            proof {
                lemma_changed(before, socket@);
            }
            self.sockets.restore(socket);
        }
        Next::Apply
    }

    /// The collecting of small pieces was switched, or why not.
    pub fn nodelay_set(
        &self,
        pending: Pending,
        id: SocketId,
        result: Result<(), String>,
        output: &mut NetOutput,
    )
        ensures
            final(output)@ == old(output)@.reply(
                pending,
                match result {
                    Ok(()) => AnswerView::Done,
                    Err(error) => AnswerView::Failed(
                        id.name() + " 设 TCP_NODELAY 失败："@ + error@,
                    ),
                },
            ),
    {
        let answer = match result {
            Ok(()) => Answer::Done,
            Err(error) => {
                let mut reason = id.text();
                reason.append(" 设 TCP_NODELAY 失败：");
                reason.append(error.as_str());
                Answer::Failed(reason)
            },
        };
        output.reply(pending, answer);
    }
}

/// Closing a socket silently after its other addresses were taken is closing
/// it silently.
proof fn lemma_taken_fallbacks(step: NetStep, before: SocketsView, id: SocketId)
    requires
        before.wf(),
        before.get(id) is Some,
        step.sockets == before.with(
            SocketView { connect_fallbacks: Seq::empty(), ..before.get(id)->0 },
        ),
    ensures
        step.closed(id, FarewellView::Silent) == (NetStep {
            sockets: before,
            output: step.output,
        }).closed(id, FarewellView::Silent),
{
    lemma_found(before, id);
    let after = step.sockets;
    assert(after.get(id) is Some);
    assert(after.removed(id).slots =~= before.removed(id).slots);
}

} // verus!
