//! Requests: what the books answer at once and what has to be done outside
//! before they can.

use crate::net::buffer::Chunk;
use crate::net::command::{Answer, Command};
use crate::net::event::{clone_text, SocketEvent, SocketId, SocketInfo};
use crate::net::output::NetOutput;
use crate::net::service::{missing, Farewell, NetCore, MAX_UDP_PACKAGE};
use crate::net::socket::{Kind, Pending, State};
use crate::text::push_decimal;
#[allow(unused_imports)]
use crate::{
    net::{
        buffer::ChunkView,
        command::AnswerView,
        config::NetConfig,
        event::{text_view, SocketEventView, SocketInfoView},
        service::{lemma_changed, lemma_found, missing_text, FarewellView, NetStep},
        socket::{SocketView, SocketsView},
    },
    text::decimal,
};
use vstd::prelude::*;

verus! {

/// What is done with an address when it is known.
#[derive(Debug, Clone, Copy, PartialEq, Eq, Structural)]
pub enum Purpose {
    Listen,
    Connect { deadline_ms: Option<u64> },
    Udp,
    UdpForPeer,
    UdpConnect { id: SocketId },
}

/// What has to be done outside to carry a request on.
#[derive(Debug, Clone, Copy, PartialEq, Eq, Structural)]
pub enum Task {
    /// Nothing.
    Nothing,
    /// The address of the request serves this purpose: as it stands where it
    /// is written out, else when it is found out.
    Address(Purpose),
    /// Bring the registration of a socket up to date; if it had been paused,
    /// take in what has come meanwhile.
    Start { id: SocketId, kind: Kind, resumed: bool },
    /// Bring the registration of a socket up to date.
    Pause { id: SocketId },
    /// Write what waits, then see about the answer.
    Flush { id: SocketId, wait: bool },
    /// Write what waits, then close.
    Close { id: SocketId },
    /// Switch the collecting of small pieces off or on.
    NoDelay { id: SocketId, on: bool },
}

/// Text about a socket.
fn about(id: SocketId, rest: &str) -> (text: String)
    ensures
        text@ == id.name() + rest@,
{
    let mut text = id.text();
    text.append(rest);
    text
}

/// Where a datagram goes: to the address given, or to the remembered peer.
pub open spec fn destination(to: Option<Seq<char>>, peer: Option<Seq<char>>) -> Option<Seq<char>> {
    if to is Some {
        to
    } else {
        peer
    }
}

/// Why bytes are not queued, if they are not.
pub open spec fn send_obstacle(sockets: SocketsView, id: SocketId) -> Option<Seq<char>> {
    match sockets.get(id) {
        None => Some(missing_text(id)),
        Some(socket) => if !socket.state.spec_writable() {
            Some(id.name() + " 现在写不了（"@ + socket.state.spec_name() + "）"@)
        } else {
            None
        },
    }
}

impl NetStep {
    /// An answer, and no more.
    pub open spec fn answered(self, pending: Pending, answer: AnswerView) -> NetStep {
        NetStep { output: self.output.reply(pending, answer), ..self }
    }

    /// What queueing bytes leaves: a refusal, or the bytes in the queue and,
    /// where it is time, a word to the owner.
    pub open spec fn queued(
        self,
        pending: Pending,
        id: SocketId,
        chunk: ChunkView,
        high: bool,
        threshold: usize,
    ) -> NetStep {
        match send_obstacle(self.sockets, id) {
            Some(reason) => self.answered(pending, AnswerView::Failed(reason)),
            None => {
                let socket = self.sockets.get(id)->0;
                let (wb, warning) = socket.wb.push(chunk, high, threshold);
                NetStep {
                    sockets: self.sockets.with(SocketView { wb, ..socket }),
                    output: match warning {
                        Some(kilobytes) => self.output.event(
                            socket.owner,
                            SocketEventView::Warning { id, kilobytes },
                        ),
                        None => self.output,
                    },
                }
            },
        }
    }

    /// What sending a datagram leaves.
    pub open spec fn datagram_queued(
        self,
        pending: Pending,
        id: SocketId,
        to: Option<Seq<char>>,
        data: Seq<u8>,
        threshold: usize,
    ) -> NetStep {
        if data.len() > MAX_UDP_PACKAGE {
            self.answered(
                pending,
                AnswerView::Failed(
                    "UDP 包 "@ + decimal(data.len()) + " 字节，超过上限 65535"@,
                ),
            )
        } else {
            match self.sockets.get(id) {
                None => self.answered(pending, AnswerView::Failed(missing_text(id))),
                Some(socket) => match destination(to, socket.udp_peer) {
                    None => self.answered(
                        pending,
                        AnswerView::Failed(id.name() + " 没有默认对端，得指定地址"@),
                    ),
                    Some(to) => self.queued(
                        pending,
                        id,
                        ChunkView { rest: data, to: Some(to) },
                        true,
                        threshold,
                    ),
                },
            }
        }
    }

    /// What starting a socket leaves: it belongs to whoever asked, is not
    /// paused, and has begun if it had not.
    pub open spec fn started(self, pending: Pending, id: SocketId) -> NetStep {
        match self.sockets.get(id) {
            None => self.answered(pending, AnswerView::Failed(missing_text(id))),
            Some(socket) => NetStep {
                sockets: self.sockets.with(
                    SocketView {
                        owner: pending.source,
                        paused: false,
                        state: match socket.state {
                            State::PreListen => State::Listen,
                            State::PreAccept => State::Connected,
                            keep => keep,
                        },
                        ..socket
                    },
                ),
                ..self
            },
        }
    }

    /// What pausing a socket leaves.
    pub open spec fn paused(self, pending: Pending, id: SocketId) -> NetStep {
        match self.sockets.get(id) {
            None => self.answered(pending, AnswerView::Failed(missing_text(id))),
            Some(socket) => NetStep {
                sockets: self.sockets.with(SocketView { paused: true, ..socket }),
                ..self
            },
        }
    }

    /// What a question about a socket leaves.
    pub open spec fn described(self, pending: Pending, id: SocketId) -> NetStep {
        match self.sockets.get(id) {
            None => self.answered(pending, AnswerView::Failed(missing_text(id))),
            Some(socket) => self.answered(pending, AnswerView::Info(socket.info())),
        }
    }

    /// What the end of the time to connect leaves.
    pub open spec fn connect_timed_out(self, id: SocketId, now_ms: u64) -> NetStep {
        match self.sockets.get(id) {
            Some(socket) => if socket.state == State::Connecting && (
            socket.connect_deadline_ms matches Some(deadline) && now_ms >= deadline) {
                let closed = self.closed(id, FarewellView::Silent);
                NetStep {
                    output: closed.output.reply_to(
                        socket.pending,
                        AnswerView::Failed("连接超时"@),
                    ),
                    ..closed
                }
            } else {
                self
            },
            None => self,
        }
    }

    /// What remembering a peer leaves.
    pub open spec fn peer_set(self, pending: Pending, id: SocketId, peer: Seq<char>) -> NetStep {
        match self.sockets.get(id) {
            None => self.answered(pending, AnswerView::Failed(missing_text(id))),
            Some(socket) => if socket.kind != Kind::Udp {
                self.answered(pending, AnswerView::Failed(id.name() + " 不是 UDP 端口"@))
            } else {
                NetStep {
                    sockets: self.sockets.with(SocketView { udp_peer: Some(peer), ..socket }),
                    ..self
                }.answered(pending, AnswerView::Done)
            },
        }
    }

    /// What a request leaves at once.
    pub open spec fn performed(
        self,
        config: NetConfig,
        pending: Pending,
        command: Command,
        now_ms: u64,
    ) -> NetStep {
        match command {
            Command::Start(id) => self.started(pending, id),
            Command::Pause(id) => self.paused(pending, id),
            Command::Send { id, data, high } => self.queued(
                pending,
                id,
                ChunkView { rest: data@, to: None },
                high,
                config.warn_size,
            ),
            Command::SendWait { id, data, high } => self.queued(
                pending,
                id,
                ChunkView { rest: data@, to: None },
                high,
                config.warn_size,
            ),
            Command::UdpSend { id, to, data } => self.datagram_queued(
                pending,
                id,
                text_view(to),
                data@,
                config.warn_size,
            ),
            Command::UdpSendWait { id, to, data } => self.datagram_queued(
                pending,
                id,
                text_view(to),
                data@,
                config.warn_size,
            ),
            Command::Shutdown(id) => self.closed(id, FarewellView::Closed).answered(
                pending,
                AnswerView::Done,
            ),
            Command::NoDelay { id, on } => match self.sockets.get(id) {
                None => self.answered(pending, AnswerView::Failed(missing_text(id))),
                Some(socket) => if socket.kind != Kind::Stream {
                    self.answered(pending, AnswerView::Failed(id.name() + " 不是 TCP 连接"@))
                } else {
                    self
                },
            },
            Command::Info(id) => self.described(pending, id),
            Command::ConnectTimeoutElapsed(id) => self.connect_timed_out(id, now_ms),
            _ => self,
        }
    }

    /// What has to be done outside to carry a request on.
    pub open spec fn task(self, command: Command, now_ms: u64) -> Task {
        match command {
            Command::Listen { .. } => Task::Address(Purpose::Listen),
            Command::Connect { .. } => Task::Address(Purpose::Connect { deadline_ms: None }),
            Command::ConnectWithTimeout { timeout_ms, .. } => Task::Address(
                Purpose::Connect {
                    deadline_ms: Some(
                        if now_ms + timeout_ms > u64::MAX {
                            u64::MAX
                        } else {
                            (now_ms + timeout_ms) as u64
                        },
                    ),
                },
            ),
            Command::Udp { .. } => Task::Address(Purpose::Udp),
            Command::UdpForPeer { .. } => Task::Address(Purpose::UdpForPeer),
            Command::UdpConnect { id, .. } => Task::Address(Purpose::UdpConnect { id }),
            Command::Start(id) => match self.sockets.get(id) {
                Some(socket) => Task::Start { id, kind: socket.kind, resumed: socket.paused },
                None => Task::Nothing,
            },
            Command::Pause(id) => if self.sockets.get(id) is Some {
                Task::Pause { id }
            } else {
                Task::Nothing
            },
            Command::Send { id, .. } => if send_obstacle(self.sockets, id) is None {
                Task::Flush { id, wait: false }
            } else {
                Task::Nothing
            },
            Command::SendWait { id, .. } => if send_obstacle(self.sockets, id) is None {
                Task::Flush { id, wait: true }
            } else {
                Task::Nothing
            },
            Command::UdpSend { id, to, data } => if self.datagram_goes(id, to, data) {
                Task::Flush { id, wait: false }
            } else {
                Task::Nothing
            },
            Command::UdpSendWait { id, to, data } => if self.datagram_goes(id, to, data) {
                Task::Flush { id, wait: true }
            } else {
                Task::Nothing
            },
            Command::Close(id) => Task::Close { id },
            Command::NoDelay { id, on } => if self.sockets.get(id) matches Some(socket)
                && socket.kind == Kind::Stream {
                Task::NoDelay { id, on }
            } else {
                Task::Nothing
            },
            _ => Task::Nothing,
        }
    }

    /// A datagram is queued.
    pub open spec fn datagram_goes(self, id: SocketId, to: Option<String>, data: Vec<u8>) -> bool {
        &&& data@.len() <= MAX_UDP_PACKAGE
        &&& send_obstacle(self.sockets, id) is None
        &&& destination(text_view(to), self.sockets.get(id)->0.udp_peer) is Some
    }

    /// The bytes of a request can be counted on top of those that wait.
    pub open spec fn countable(self, command: Command) -> bool {
        match command {
            Command::Send { id, data, .. } => self.sockets.get(id) matches Some(socket)
                ==> socket.wb.size() + data@.len() <= usize::MAX,
            Command::SendWait { id, data, .. } => self.sockets.get(id) matches Some(socket)
                ==> socket.wb.size() + data@.len() <= usize::MAX,
            Command::UdpSend { id, data, .. } => self.sockets.get(id) matches Some(socket)
                ==> socket.wb.size() + data@.len() <= usize::MAX,
            Command::UdpSendWait { id, data, .. } => self.sockets.get(id) matches Some(socket)
                ==> socket.wb.size() + data@.len() <= usize::MAX,
            _ => true,
        }
    }
}

impl NetCore {
    /// Whether the bytes of a request can be counted on top of those that
    /// wait.
    pub fn has_room(&self, id: SocketId, length: usize) -> (room: bool)
        requires
            self.wf(),
        ensures
            room == (self.sockets@.get(id) matches Some(socket) ==> socket.wb.size() + length
                <= usize::MAX),
    {
        match self.sockets.get(id) {
            Some(socket) => socket.wb.size() <= usize::MAX - length,
            None => true,
        }
    }

    /// Queues bytes. Says whether they are queued.
    fn do_send(
        &mut self,
        pending: Pending,
        id: SocketId,
        chunk: Chunk,
        high: bool,
        output: &mut NetOutput,
    ) -> (queued: bool)
        requires
            old(self).wf(),
            chunk.wf(),
            old(self).sockets@.get(id) matches Some(socket) ==> socket.wb.size()
                + chunk@.rest.len() <= usize::MAX,
        ensures
            final(self).wf(),
            final(self).config == old(self).config,
            final(self).step(final(output)@) == old(self).step(old(output)@).queued(
                pending,
                id,
                chunk@,
                high,
                old(self).config.warn_size,
            ),
            queued == (send_obstacle(old(self).sockets@, id) is None),
    {
        let state = match self.sockets.get(id) {
            None => {
                output.reply(pending, missing(id));
                return false;
            },
            Some(socket) => socket.state,
        };
        if !state.writable() {
            let mut reason = about(id, " 现在写不了（");
            reason.append(state.name());
            reason.append("）");
            output.reply(pending, Answer::Failed(reason));
            return false;
        }
        let ghost before = self.sockets@;
        if let Some(socket) = self.sockets.remove(id) {
            let mut socket = socket;
            proof {
                lemma_found(before, id);
            }
            let warning = socket.wb.push(chunk, high, self.config.warn_size);
            if let Some(kilobytes) = warning {
                output.event(socket.owner, SocketEvent::Warning { id, kilobytes });
            }
            proof {
                lemma_changed(before, socket@);
            }
            self.sockets.restore(socket);
        }
        true
    }

    /// Queues a datagram. Says whether it is queued.
    fn do_udp_send(
        &mut self,
        pending: Pending,
        id: SocketId,
        to: Option<String>,
        data: Vec<u8>,
        output: &mut NetOutput,
    ) -> (queued: bool)
        requires
            old(self).wf(),
            old(self).sockets@.get(id) matches Some(socket) ==> socket.wb.size() + data@.len()
                <= usize::MAX,
        ensures
            final(self).wf(),
            final(self).config == old(self).config,
            final(self).step(final(output)@) == old(self).step(old(output)@).datagram_queued(
                pending,
                id,
                text_view(to),
                data@,
                old(self).config.warn_size,
            ),
            queued == old(self).step(old(output)@).datagram_goes(id, to, data),
    {
        if data.len() > MAX_UDP_PACKAGE {
            let mut reason = "UDP 包 ".to_owned();
            push_decimal(&mut reason, data.len() as u64);
            reason.append(" 字节，超过上限 65535");
            output.reply(pending, Answer::Failed(reason));
            return false;
        }
        let known = match self.sockets.get(id) {
            None => {
                output.reply(pending, missing(id));
                return false;
            },
            Some(socket) => clone_text(&socket.udp_peer),
        };
        let to = match to {
            Some(to) => Some(to),
            None => known,
        };
        match to {
            None => {
                output.reply(
                    pending,
                    Answer::Failed(about(id, " 没有默认对端，得指定地址")),
                );
                false
            },
            Some(to) => self.do_send(pending, id, Chunk::udp(data, to), true, output),
        }
    }

    /// Makes a socket its caller's, no longer paused, and begun.
    fn do_start(&mut self, pending: Pending, id: SocketId, output: &mut NetOutput) -> (task: Task)
        requires
            old(self).wf(),
        ensures
            final(self).wf(),
            final(self).config == old(self).config,
            final(self).step(final(output)@) == old(self).step(old(output)@).started(pending, id),
            task == (match old(self).sockets@.get(id) {
                Some(socket) => Task::Start { id, kind: socket.kind, resumed: socket.paused },
                None => Task::Nothing,
            }),
    {
        let ghost before = self.sockets@;
        match self.sockets.remove(id) {
            None => {
                output.reply(pending, missing(id));
                Task::Nothing
            },
            Some(socket) => {
                let mut socket = socket;
                proof {
                    lemma_found(before, id);
                }
                let resumed = socket.paused;
                socket.owner = pending.source;
                socket.paused = false;
                socket.state = match socket.state {
                    State::PreListen => State::Listen,
                    State::PreAccept => State::Connected,
                    keep => keep,
                };
                let kind = socket.kind;
                proof {
                    lemma_changed(before, socket@);
                }
                self.sockets.restore(socket);
                Task::Start { id, kind, resumed }
            },
        }
    }

    /// Pauses a socket.
    fn do_pause(&mut self, pending: Pending, id: SocketId, output: &mut NetOutput) -> (task: Task)
        requires
            old(self).wf(),
        ensures
            final(self).wf(),
            final(self).config == old(self).config,
            final(self).step(final(output)@) == old(self).step(old(output)@).paused(pending, id),
            task == (if old(self).sockets@.get(id) is Some {
                Task::Pause { id }
            } else {
                Task::Nothing
            }),
    {
        let ghost before = self.sockets@;
        match self.sockets.remove(id) {
            None => {
                output.reply(pending, missing(id));
                Task::Nothing
            },
            Some(socket) => {
                let mut socket = socket;
                proof {
                    lemma_found(before, id);
                }
                socket.paused = true;
                proof {
                    lemma_changed(before, socket@);
                }
                self.sockets.restore(socket);
                Task::Pause { id }
            },
        }
    }

    /// The time to connect is over: a connection that is not up by its
    /// deadline is given up.
    fn do_connect_timeout(&mut self, id: SocketId, now_ms: u64, output: &mut NetOutput)
        requires
            old(self).wf(),
        ensures
            final(self).wf(),
            final(self).config == old(self).config,
            final(self).step(final(output)@) == old(self).step(old(output)@).connect_timed_out(
                id,
                now_ms,
            ),
    {
        let mut late = false;
        let mut waiting: Option<Pending> = None;
        if let Some(socket) = self.sockets.get(id) {
            if let Some(deadline) = socket.connect_deadline_ms {
                late = socket.state == State::Connecting && now_ms >= deadline;
            }
            waiting = socket.pending;
        }
        if late {
            self.close(id, Farewell::Silent, output);
            output.reply_to(waiting, Answer::Failed("连接超时".to_owned()));
        }
    }

    /// Remembers the peer of a datagram socket.
    pub fn do_udp_connect(
        &mut self,
        pending: Pending,
        id: SocketId,
        peer: String,
        output: &mut NetOutput,
    )
        requires
            old(self).wf(),
        ensures
            final(self).wf(),
            final(self).config == old(self).config,
            final(self).step(final(output)@) == old(self).step(old(output)@).peer_set(
                pending,
                id,
                peer@,
            ),
    {
        let kind = match self.sockets.get(id) {
            None => {
                output.reply(pending, missing(id));
                return;
            },
            Some(socket) => socket.kind,
        };
        if kind != Kind::Udp {
            output.reply(pending, Answer::Failed(about(id, " 不是 UDP 端口")));
            return;
        }
        let ghost before = self.sockets@;
        if let Some(socket) = self.sockets.remove(id) {
            let mut socket = socket;
            proof {
                lemma_found(before, id);
            }
            socket.udp_peer = Some(peer);
            proof {
                lemma_changed(before, socket@);
            }
            self.sockets.restore(socket);
        }
        output.reply(pending, Answer::Done);
    }

    /// Takes a request on: what the books can answer is answered, and what
    /// has to be done outside is returned.
    pub fn perform(
        &mut self,
        pending: Pending,
        command: Command,
        now_ms: u64,
        output: &mut NetOutput,
    ) -> (task: Task)
        requires
            old(self).wf(),
            old(self).step(old(output)@).countable(command),
        ensures
            final(self).wf(),
            final(self).config == old(self).config,
            !(command is Netstat) ==> final(self).step(final(output)@) == old(self).step(
                old(output)@,
            ).performed(old(self).config, pending, command, now_ms),
            task == old(self).step(old(output)@).task(command, now_ms),
            command is Netstat ==> final(self).sockets@ == old(self).sockets@ && final(
                output)@.events == old(output)@.events && exists|infos: Seq<SocketInfoView>|
                #[trigger] old(self).sockets@.described_by(infos) && final(output)@ == old(
                    output)@.reply(pending, AnswerView::Infos(infos)),
    {
        match command {
            Command::Listen { addr: _ } => Task::Address(Purpose::Listen),
            Command::Connect { addr: _ } => Task::Address(
                Purpose::Connect { deadline_ms: None },
            ),
            Command::ConnectWithTimeout { addr: _, timeout_ms } => Task::Address(
                Purpose::Connect { deadline_ms: Some(now_ms.saturating_add(timeout_ms)) },
            ),
            Command::Udp { bind: _ } => Task::Address(Purpose::Udp),
            Command::UdpForPeer { addr: _ } => Task::Address(Purpose::UdpForPeer),
            Command::UdpConnect { id, addr: _ } => Task::Address(Purpose::UdpConnect { id }),
            Command::Start(id) => self.do_start(pending, id, output),
            Command::Pause(id) => self.do_pause(pending, id, output),
            Command::Send { id, data, high } => {
                if self.do_send(pending, id, Chunk::tcp(data), high, output) {
                    Task::Flush { id, wait: false }
                } else {
                    Task::Nothing
                }
            },
            Command::SendWait { id, data, high } => {
                if self.do_send(pending, id, Chunk::tcp(data), high, output) {
                    Task::Flush { id, wait: true }
                } else {
                    Task::Nothing
                }
            },
            Command::UdpSend { id, to, data } => {
                if self.do_udp_send(pending, id, to, data, output) {
                    Task::Flush { id, wait: false }
                } else {
                    Task::Nothing
                }
            },
            Command::UdpSendWait { id, to, data } => {
                if self.do_udp_send(pending, id, to, data, output) {
                    Task::Flush { id, wait: true }
                } else {
                    Task::Nothing
                }
            },
            Command::Close(id) => Task::Close { id },
            Command::Shutdown(id) => {
                self.close(id, Farewell::Closed, output);
                output.reply(pending, Answer::Done);
                Task::Nothing
            },
            Command::NoDelay { id, on } => {
                match self.sockets.get(id) {
                    None => {
                        output.reply(pending, missing(id));
                        Task::Nothing
                    },
                    Some(socket) => if socket.kind != Kind::Stream {
                        output.reply(
                            pending,
                            Answer::Failed(about(id, " 不是 TCP 连接")),
                        );
                        Task::Nothing
                    } else {
                        Task::NoDelay { id, on }
                    },
                }
            },
            Command::Info(id) => {
                let answer = match self.sockets.get(id) {
                    Some(socket) => Answer::Info(socket.info()),
                    None => missing(id),
                };
                output.reply(pending, answer);
                Task::Nothing
            },
            Command::Netstat => {
                let infos = self.sockets.infos();
                proof {
                    let views = infos@.map_values(|i: SocketInfo| i@);
                    self.sockets@.lemma_described_by(infos@, views);
                }
                output.reply(pending, Answer::Infos(infos));
                Task::Nothing
            },
            Command::ConnectTimeoutElapsed(id) => {
                self.do_connect_timeout(id, now_ms, output);
                Task::Nothing
            },
        }
    }
}

} // verus!
