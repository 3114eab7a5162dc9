//! Reading, writing, accepting and connecting, step by step.

use crate::net::event::{SocketEvent, SocketId};
use crate::net::output::NetOutput;
use crate::net::service::{
    joined, release_all, Farewell, FlushStep, NetCore, Next, ReadResult, UdpResult, WriteResult,
};
use crate::net::socket::{Kind, State};
#[allow(unused_imports)]
use crate::net::{
    command::AnswerView,
    config::NetConfig,
    event::{text_view, SocketEventView},
    service::{lemma_changed, lemma_found, FarewellView, NetStep},
    socket::{SocketView, Stat},
};
use std::collections::VecDeque;
use vstd::prelude::*;

verus! {

/// A sum that stays at the largest number.
pub open spec fn capped(a: u64, b: int) -> u64 {
    if a + b > u64::MAX {
        u64::MAX
    } else {
        (a + b) as u64
    }
}

/// Where fewer bytes wait than this, callers that wait for that are answered.
pub open spec fn low_water(config: NetConfig) -> int {
    config.warn_size as int / 2
}

impl SocketView {
    /// With bytes of the chunk in front written.
    pub open spec fn wrote(self, count: int, now_ms: u64) -> SocketView {
        SocketView {
            wb: self.wb.consumed(count),
            stat: Stat {
                write_bytes: capped(self.stat.write_bytes, count),
                last_write_at_ms: Some(now_ms),
                ..self.stat
            },
            ..self
        }
    }

    /// With bytes read.
    pub open spec fn took(self, count: usize, now_ms: u64) -> SocketView {
        SocketView {
            read: self.read.observed(count),
            stat: Stat {
                read_bytes: capped(self.stat.read_bytes, count as int),
                last_read_at_ms: Some(now_ms),
                ..self.stat
            },
            ..self
        }
    }

    /// With a datagram received.
    pub open spec fn received(self, count: int, now_ms: u64) -> SocketView {
        SocketView {
            stat: Stat {
                read_bytes: capped(self.stat.read_bytes, count),
                last_read_at_ms: Some(now_ms),
                ..self.stat
            },
            ..self
        }
    }
}

impl SocketView {
    /// What there is to write.
    pub open spec fn to_flush(self) -> FlushStep {
        if self.wb.is_empty() {
            FlushStep::Drained
        } else if self.kind == Kind::Listener {
            FlushStep::Nothing
        } else {
            FlushStep::Write
        }
    }

    /// How much to read, if anything.
    pub open spec fn to_read(self) -> Option<usize> {
        if !self.paused && self.kind == Kind::Stream {
            Some(self.read.size)
        } else {
            None
        }
    }

    /// Connections are to be accepted.
    pub open spec fn to_accept(self) -> bool {
        !self.paused && self.kind == Kind::Listener
    }
}

/// What to do after a write on a socket that was there or not.
pub open spec fn after_write(there: bool, result: WriteResult) -> Next {
    if !there {
        Next::Stop
    } else {
        match result {
            WriteResult::Wrote(count) => if count == 0 {
                Next::Stop
            } else {
                Next::Again
            },
            WriteResult::WouldBlock => Next::Apply,
            WriteResult::Interrupted => Next::Again,
            WriteResult::Failed(_) => Next::Stop,
        }
    }
}

/// What to do after a read on a socket that was there or not, and is there now or not.
pub open spec fn after_read(there: bool, stays: bool, result: ReadResult) -> Next {
    if !there {
        Next::Stop
    } else {
        match result {
            ReadResult::Data(_) => Next::Again,
            ReadResult::Eof => if stays {
                Next::Apply
            } else {
                Next::Stop
            },
            ReadResult::WouldBlock => Next::Stop,
            ReadResult::Interrupted => Next::Again,
            ReadResult::Failed(_) => Next::Stop,
        }
    }
}

/// What to do after receiving a datagram.
pub open spec fn after_datagram(result: UdpResult) -> Next {
    match result {
        UdpResult::Datagram { .. } => Next::Again,
        UdpResult::WouldBlock => Next::Stop,
        UdpResult::Interrupted => Next::Again,
        UdpResult::Failed(_) => Next::Stop,
    }
}

impl NetStep {
    /// With those who wait for fewer bytes answered, where few enough wait.
    pub open spec fn relieved(self, id: SocketId, low: int) -> NetStep {
        match self.sockets.get(id) {
            None => self,
            Some(socket) => if socket.wb.size() <= low {
                NetStep {
                    sockets: self.sockets.with(
                        SocketView { send_waiters: Seq::empty(), ..socket },
                    ),
                    output: self.output.reply_all(socket.send_waiters, AnswerView::Done),
                }
            } else {
                self
            },
        }
    }

    /// What a write leaves.
    pub open spec fn written(self, id: SocketId, result: WriteResult, now_ms: u64, low: int) -> NetStep {
        match self.sockets.get(id) {
            None => self,
            Some(socket) => match result {
                WriteResult::Wrote(count) => if count == 0 {
                    self.closed(id, FarewellView::Failed("对端不再接收数据"@))
                } else {
                    NetStep {
                        sockets: self.sockets.with(socket.wrote(count as int, now_ms)),
                        ..self
                    }.relieved(id, low)
                },
                WriteResult::WouldBlock => self,
                WriteResult::Interrupted => self,
                WriteResult::Failed(reason) => self.closed(
                    id,
                    FarewellView::Failed("写出错："@ + reason@),
                ),
            },
        }
    }

    /// What the end of writing leaves: a socket that was only waiting for it
    /// is closed.
    pub open spec fn drained(self, id: SocketId) -> NetStep {
        match self.sockets.get(id) {
            None => self,
            Some(socket) => if socket.state == State::HalfCloseWrite || socket.state
                == State::HalfCloseRead {
                self.closed(id, FarewellView::Closed)
            } else {
                self
            },
        }
    }

    /// What a read leaves.
    pub open spec fn taken(self, id: SocketId, result: ReadResult, now_ms: u64) -> NetStep {
        match self.sockets.get(id) {
            None => self,
            Some(socket) => match result {
                ReadResult::Data(data) => NetStep {
                    sockets: self.sockets.with(socket.took(data@.len() as usize, now_ms)),
                    output: self.output.event(
                        socket.owner,
                        SocketEventView::Data { id, data: data@ },
                    ),
                },
                ReadResult::Eof => self.peer_closed(id),
                ReadResult::WouldBlock => self,
                ReadResult::Interrupted => self,
                ReadResult::Failed(reason) => self.closed(
                    id,
                    FarewellView::Failed("读出错："@ + reason@),
                ),
            },
        }
    }

    /// What receiving a datagram leaves. That one goes wrong does not harm the
    /// socket.
    pub open spec fn received(self, id: SocketId, result: UdpResult, now_ms: u64) -> NetStep {
        match self.sockets.get(id) {
            None => self,
            Some(socket) => match result {
                UdpResult::Datagram { from, data } => NetStep {
                    sockets: self.sockets.with(socket.received(data@.len() as int, now_ms)),
                    output: self.output.event(
                        socket.owner,
                        SocketEventView::Udp { id, from: from@, data: data@ },
                    ),
                },
                _ => self,
            },
        }
    }

    /// What a new connection of a listener leaves: it is entered for the
    /// listener's owner, who is told. With all slots taken it is dropped.
    pub open spec fn accepted(self, listen: SocketId, peer: Seq<char>) -> (
        NetStep,
        Option<SocketId>,
    ) {
        let listener = self.sockets.get(listen)->0;
        let counted = self.sockets.with(
            SocketView {
                stat: Stat {
                    accept_count: capped(listener.stat.accept_count, 1),
                    ..listener.stat
                },
                ..listener
            },
        );
        let (entered, id) = counted.inserted(listener.owner, Kind::Stream, State::PreAccept);
        match id {
            None => (NetStep { sockets: entered, ..self }, None),
            Some(id) => (
                NetStep {
                    sockets: entered.with(SocketView { peer: Some(peer), ..entered.get(id)->0 }),
                    output: self.output.event(
                        listener.owner,
                        SocketEventView::Accept { id, listen, peer },
                    ),
                },
                Some(id),
            ),
        }
    }
}

impl NetCore {
    /// What there is to write. Where there is something, it stands in front of
    /// the socket's queue afterwards.
    pub fn flush_step(&mut self, id: SocketId) -> (step: FlushStep)
        requires
            old(self).wf(),
        ensures
            final(self).wf(),
            final(self).config == old(self).config,
            match old(self).sockets@.get(id) {
                None => step == FlushStep::Nothing && final(self).sockets@ == old(self).sockets@,
                Some(socket) => {
                    &&& final(self).sockets@ == old(self).sockets@.with(
                        SocketView { wb: socket.wb.raised(), ..socket },
                    )
                    &&& step == socket.to_flush()
                },
            },
    {
        let ghost before = self.sockets@;
        match self.sockets.remove(id) {
            None => FlushStep::Nothing,
            Some(socket) => {
                let mut socket = socket;
                proof {
                    lemma_found(before, id);
                }
                let drained = socket.wb.next().is_none();
                let step = if drained {
                    FlushStep::Drained
                } else if socket.kind == Kind::Listener {
                    FlushStep::Nothing
                } else {
                    FlushStep::Write
                };
                proof {
                    lemma_changed(before, socket@);
                }
                self.sockets.restore(socket);
                step
            },
        }
    }

    /// The bytes in front of a socket's queue, and where they go.
    pub fn front(&self, id: SocketId) -> (front: Option<(&[u8], Option<String>)>)
        requires
            self.wf(),
        ensures
            match self.sockets@.get(id) {
                None => front is None,
                Some(socket) => match front {
                    None => socket.wb.high.len() == 0,
                    Some((rest, to)) => socket.wb.high.len() > 0 && rest@ == socket.wb.high[0].rest
                        && text_view(to) == socket.wb.high[0].to,
                },
            },
    {
        match self.sockets.get(id) {
            None => None,
            Some(socket) => {
                if socket.wb.high.len() == 0 {
                    return None;
                }
                let chunk = &socket.wb.high[0];
                assert(chunk@ == socket@.wb.high[0]);
                assert(socket.wb.high@[0].wf());
                Some((chunk.rest(), chunk.to()))
            },
        }
    }

    /// Takes what came of writing the bytes in front.
    pub fn flush_result(
        &mut self,
        id: SocketId,
        result: WriteResult,
        now_ms: u64,
        output: &mut NetOutput,
    ) -> (next: Next)
        requires
            old(self).wf(),
            old(self).sockets@.get(id) matches Some(socket) ==> socket.wb.high.len() > 0 && (
            result matches WriteResult::Wrote(count) ==> count <= socket.wb.high[0].rest.len()),
        ensures
            final(self).wf(),
            final(self).config == old(self).config,
            final(self).step(final(output)@) == old(self).step(old(output)@).written(
                id,
                result,
                now_ms,
                low_water(old(self).config),
            ),
            next == after_write(old(self).sockets@.get(id) is Some, result),
    {
        if self.sockets.get(id).is_none() {
            return Next::Stop;
        }
        match result {
            WriteResult::Wrote(count) => {
                if count == 0 {
                    self.close(id, Farewell::Failed("对端不再接收数据".to_owned()), output);
                    return Next::Stop;
                }
                let ghost before = self.sockets@;
                if let Some(socket) = self.sockets.remove(id) {
                    let mut socket = socket;
                    let ghost start = socket@;
                    proof {
                        lemma_found(before, id);
                    }
                    socket.wb.consume(count);
                    socket.stat.write_bytes = socket.stat.write_bytes.saturating_add(count as u64);
                    socket.stat.last_write_at_ms = Some(now_ms);
                    assert(socket@ =~= start.wrote(count as int, now_ms));
                    let ghost middle = socket@;
                    proof {
                        lemma_changed(before, middle);
                    }
                    if socket.wb.size() <= self.config.warn_size / 2 {
                        release_all(&socket.send_waiters, output);
                        socket.send_waiters = VecDeque::new();
                    }
                    proof {
                        lemma_changed(before, socket@);
                        let first = before.with(middle);
                        assert(first.get(id) == Some(middle));
                        assert(first.with(socket@).slots =~= before.with(socket@).slots);
                    }
                    self.sockets.restore(socket);
                }
                Next::Again
            },
            WriteResult::WouldBlock => Next::Apply,
            WriteResult::Interrupted => Next::Again,
            WriteResult::Failed(reason) => {
                let reason = joined("写出错：", reason.as_str());
                self.close(id, Farewell::Failed(reason), output);
                Next::Stop
            },
        }
    }

    /// Everything is written: a socket that was only waiting for it is closed,
    /// any other has its registration brought up to date.
    pub fn flush_end(&mut self, id: SocketId, output: &mut NetOutput) -> (next: Next)
        requires
            old(self).wf(),
        ensures
            final(self).wf(),
            final(self).config == old(self).config,
            final(self).step(final(output)@) == old(self).step(old(output)@).drained(id),
            next == (if final(self).sockets@.get(id) is Some {
                Next::Apply
            } else {
                Next::Stop
            }),
    {
        let closing = match self.sockets.get(id) {
            None => {
                return Next::Stop;
            },
            Some(socket) => socket.state == State::HalfCloseWrite || socket.state
                == State::HalfCloseRead,
        };
        if closing {
            self.close(id, Farewell::Closed, output);
            return Next::Stop;
        }
        Next::Apply
    }

    /// How much to read from a stream, if anything.
    pub fn read_step(&self, id: SocketId) -> (size: Option<usize>)
        requires
            self.wf(),
        ensures
            size == (match self.sockets@.get(id) {
                Some(socket) => socket.to_read(),
                None => None,
            }),
    {
        match self.sockets.get(id) {
            Some(socket) => if !socket.paused && socket.kind == Kind::Stream {
                Some(socket.read.size())
            } else {
                None
            },
            None => None,
        }
    }

    /// Takes what came of a read.
    pub fn read_result(
        &mut self,
        id: SocketId,
        result: ReadResult,
        now_ms: u64,
        output: &mut NetOutput,
    ) -> (next: Next)
        requires
            old(self).wf(),
        ensures
            final(self).wf(),
            final(self).config == old(self).config,
            final(self).step(final(output)@) == old(self).step(old(output)@).taken(
                id,
                result,
                now_ms,
            ),
            next == after_read(
                old(self).sockets@.get(id) is Some,
                final(self).sockets@.get(id) is Some,
                result,
            ),
    {
        if self.sockets.get(id).is_none() {
            return Next::Stop;
        }
        match result {
            ReadResult::Data(data) => {
                let ghost before = self.sockets@;
                if let Some(socket) = self.sockets.remove(id) {
                    let mut socket = socket;
                    let ghost start = socket@;
                    proof {
                        lemma_found(before, id);
                    }
                    let count: usize = data.len();
                    socket.read.observe(count);
                    socket.stat.read_bytes = socket.stat.read_bytes.saturating_add(count as u64);
                    socket.stat.last_read_at_ms = Some(now_ms);
                    output.event(socket.owner, SocketEvent::Data { id, data });
                    proof {
                        assert(socket@ =~= start.took(count, now_ms));
                        lemma_changed(before, socket@);
                    }
                    self.sockets.restore(socket);
                }
                Next::Again
            },
            ReadResult::Eof => self.peer_closed(id, output),
            ReadResult::WouldBlock => Next::Stop,
            ReadResult::Interrupted => Next::Again,
            ReadResult::Failed(reason) => {
                let reason = joined("读出错：", reason.as_str());
                self.close(id, Farewell::Failed(reason), output);
                Next::Stop
            },
        }
    }

    /// Whether datagrams are to be received.
    pub fn udp_step(&self, id: SocketId) -> (receive: bool)
        requires
            self.wf(),
        ensures
            receive == (self.sockets@.get(id) matches Some(socket) && socket.kind == Kind::Udp),
    {
        match self.sockets.get(id) {
            Some(socket) => socket.kind == Kind::Udp,
            None => false,
        }
    }

    /// Takes what came of receiving a datagram.
    pub fn udp_result(
        &mut self,
        id: SocketId,
        result: UdpResult,
        now_ms: u64,
        output: &mut NetOutput,
    ) -> (next: Next)
        requires
            old(self).wf(),
        ensures
            final(self).wf(),
            final(self).config == old(self).config,
            final(self).step(final(output)@) == old(self).step(old(output)@).received(
                id,
                result,
                now_ms,
            ),
            next == after_datagram(result),
    {
        match result {
            UdpResult::Datagram { from, data } => {
                let ghost before = self.sockets@;
                if let Some(socket) = self.sockets.remove(id) {
                    let mut socket = socket;
                    let ghost start = socket@;
                    proof {
                        lemma_found(before, id);
                    }
                    let count: usize = data.len();
                    socket.stat.read_bytes = socket.stat.read_bytes.saturating_add(count as u64);
                    socket.stat.last_read_at_ms = Some(now_ms);
                    output.event(socket.owner, SocketEvent::Udp { id, from, data });
                    proof {
                        assert(socket@ =~= start.received(count as int, now_ms));
                        lemma_changed(before, socket@);
                    }
                    self.sockets.restore(socket);
                }
                Next::Again
            },
            UdpResult::WouldBlock => Next::Stop,
            UdpResult::Interrupted => Next::Again,
            UdpResult::Failed(_) => Next::Stop,
        }
    }

    /// Whether connections are to be accepted. A paused listener leaves them
    /// waiting.
    pub fn accept_step(&self, listen: SocketId) -> (accept: bool)
        requires
            self.wf(),
        ensures
            accept == (self.sockets@.get(listen) matches Some(socket) && socket.to_accept()),
    {
        match self.sockets.get(listen) {
            Some(socket) => !socket.paused && socket.kind == Kind::Listener,
            None => false,
        }
    }

    /// Takes a new connection of a listener. With all slots taken it has no
    /// number and is to be dropped.
    pub fn accept_result(&mut self, listen: SocketId, peer: String, output: &mut NetOutput) -> (id:
        Option<SocketId>)
        requires
            old(self).wf(),
            old(self).sockets@.get(listen) is Some,
        ensures
            final(self).wf(),
            final(self).config == old(self).config,
            (final(self).step(final(output)@), id) == old(self).step(old(output)@).accepted(
                listen,
                peer@,
            ),
    {
        let ghost before = self.sockets@;
        let mut owner: u32 = 0;
        if let Some(socket) = self.sockets.remove(listen) {
            let mut socket = socket;
            proof {
                lemma_found(before, listen);
            }
            owner = socket.owner;
            socket.stat.accept_count = socket.stat.accept_count.saturating_add(1);
            proof {
                lemma_changed(before, socket@);
            }
            self.sockets.restore(socket);
        }
        let ghost counted = self.sockets@;
        let entered = self.sockets.insert(owner, Kind::Stream, State::PreAccept);
        match entered {
            None => None,
            Some(id) => {
                let ghost inserted = self.sockets@;
                if let Some(socket) = self.sockets.remove(id) {
                    let mut socket = socket;
                    proof {
                        lemma_found(inserted, id);
                    }
                    socket.peer = Some(peer.clone());
                    proof {
                        lemma_changed(inserted, socket@);
                    }
                    self.sockets.restore(socket);
                }
                output.event(owner, SocketEvent::Accept { id, listen, peer });
                Some(id)
            },
        }
    }
}

} // verus!
