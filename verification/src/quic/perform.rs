//! What each request does to the books.
//!
//! A request is carried out in three steps. [`State::consult`] says what the
//! protocol engine has to be asked, the engine is asked, and
//! [`State::settle`] enters its answer.

use crate::quic::command::{checked_error_code, proto_stream_id, Answer, Command, VARINT_BOUND};
use crate::quic::config::QuicConfig;
use crate::quic::event::{clone_text, QuicConnectionId, QuicEvent, QuicInfo, QuicListenerId, QuicStreamId};
use crate::quic::link::{answer_of, is_receiving_side, is_sending_side, QueuedFinish};
use crate::quic::outcome::{ProtoInfo, WriteOutcome};
use crate::quic::output::{DriveOutput, Pending};
use crate::quic::state::{Consult, Outcome, State};
use crate::text::push_decimal;
#[allow(unused_imports)]
use crate::{
    quic::{
        command::AnswerView,
        event::{EventView, InfoView},
        link::{call_answer, has_finish, has_write, receives, sends, LinkView},
        outcome::{ProtoInfoView, WriteOutcomeView},
        output::OutputView,
        state::{
            answers, performable, stream_obstacle, EndpointView, OutcomeView, Settled, StateView,
        },
    },
    text::decimal,
};
use vstd::prelude::*;

verus! {

/// The place of a connection as the machine counts.
pub open spec fn place_number(place: int) -> usize {
    place as usize
}

/// The text of a write that is longer than allowed.
pub open spec fn oversize_text(length: nat, limit: nat) -> Seq<char> {
    "单次 QUIC 写入 "@ + decimal(length) + " 字节，超过上限 "@ + decimal(limit)
}

/// Why a write is refused before the stream is asked, if it is.
pub open spec fn write_obstacle(
    state: StateView,
    config: QuicConfig,
    caller: u32,
    id: QuicConnectionId,
    stream: QuicStreamId,
    length: nat,
) -> Option<Seq<char>> {
    if length > config.max_chunk_size {
        Some(oversize_text(length, config.max_chunk_size as nat))
    } else if state.obstacle(id, caller) is Some {
        Some(id.name() + " 不存在或不属于调用方"@)
    } else if stream_obstacle(stream) is Some {
        stream_obstacle(stream)
    } else if has_finish(state.link(id).finishes, stream.0) {
        Some(stream.name() + " 已经在等待 finish"@)
    } else {
        None
    }
}

/// Why an operation on a stream is refused before the stream is asked.
pub open spec fn call_obstacle(
    state: StateView,
    caller: u32,
    id: QuicConnectionId,
    stream: QuicStreamId,
) -> Option<Seq<char>> {
    if state.obstacle(id, caller) is Some {
        state.obstacle(id, caller)
    } else {
        stream_obstacle(stream)
    }
}

impl StateView {
    /// What a request needs from the protocol engine.
    pub open spec fn consult(self, config: QuicConfig, pending: Pending, command: Command) -> Consult {
        let caller = pending.source;
        match command {
            Command::OpenBi(id) => if self.obstacle(id, caller) is None {
                Consult::Open { place: place_number(self.link_place(id)), bidirectional: true }
            } else {
                Consult::Nothing
            },
            Command::OpenUni(id) => if self.obstacle(id, caller) is None {
                Consult::Open { place: place_number(self.link_place(id)), bidirectional: false }
            } else {
                Consult::Nothing
            },
            Command::Send { id, stream, data, wait } => if write_obstacle(
                self,
                config,
                caller,
                id,
                stream,
                data@.len(),
            ) is None {
                Consult::Write { place: place_number(self.link_place(id)), stream: stream.0 }
            } else {
                Consult::Nothing
            },
            Command::Finish { id, stream } => if call_obstacle(self, caller, id, stream) is None
                && !has_finish(self.link(id).finishes, stream.0) && !has_write(
                self.link(id).writes,
                stream.0,
            ) {
                Consult::Finish { place: place_number(self.link_place(id)), stream: stream.0 }
            } else {
                Consult::Nothing
            },
            Command::Reset { id, stream, error_code } => if error_code < VARINT_BOUND
                && call_obstacle(self, caller, id, stream) is None {
                Consult::Reset {
                    place: place_number(self.link_place(id)),
                    stream: stream.0,
                    code: error_code,
                }
            } else {
                Consult::Nothing
            },
            Command::Stop { id, stream, error_code } => if error_code < VARINT_BOUND
                && call_obstacle(self, caller, id, stream) is None {
                Consult::Stop {
                    place: place_number(self.link_place(id)),
                    stream: stream.0,
                    code: error_code,
                }
            } else {
                Consult::Nothing
            },
            Command::SendDatagram { id, data } => if self.obstacle(id, caller) is None {
                Consult::Datagram { place: place_number(self.link_place(id)) }
            } else {
                Consult::Nothing
            },
            Command::Close { id, error_code, reason } => if error_code < VARINT_BOUND
                && self.obstacle(id, caller) is None {
                Consult::Close { place: place_number(self.link_place(id)), code: error_code }
            } else {
                Consult::Nothing
            },
            Command::Shutdown(id) => if self.obstacle(id, caller) is None {
                Consult::Close { place: place_number(self.link_place(id)), code: 0 }
            } else {
                Consult::Nothing
            },
            Command::Info(id) => if self.has_link(id) {
                Consult::Info { place: place_number(self.link_place(id)) }
            } else {
                Consult::Nothing
            },
            Command::Netstat => Consult::Infos,
            _ => Consult::Nothing,
        }
    }

    /// The books unchanged, one answer, and the socket to drive.
    pub open spec fn replied(
        self,
        output: OutputView,
        pending: Option<Pending>,
        answer: AnswerView,
        socket: Option<u32>,
    ) -> Settled {
        Settled { state: self, output: output.reply_to(pending, answer), socket, dropped: None }
    }

    /// A caller takes a connection over and gets the events that waited.
    pub open spec fn settle_start(
        self,
        pending: Pending,
        id: QuicConnectionId,
        output: OutputView,
    ) -> Settled {
        if !self.has_link(id) {
            self.replied(
                output,
                Some(pending),
                AnswerView::Failed(id.name() + " 不存在"@),
                None,
            )
        } else {
            let link = self.link(id);
            let started = LinkView {
                owner: pending.source,
                started: true,
                queued_events: Seq::empty(),
                ..link
            };
            let told = OutputView {
                events: output.events + link.queued_events.map_values(
                    |event: EventView| (pending.source, event),
                ),
                ..output
            };
            self.with_link(id, started).replied(
                told,
                Some(pending),
                AnswerView::Done,
                Some(link.endpoint_socket),
            )
        }
    }

    /// A listener's address.
    pub open spec fn settle_local_addr(
        self,
        pending: Pending,
        id: QuicListenerId,
        output: OutputView,
    ) -> Settled {
        let place = self.listener_place(id, pending.source);
        let answer = if place < self.endpoints.len() && self.endpoints[place].local is Some {
            AnswerView::LocalAddr(self.endpoints[place].local->0)
        } else {
            AnswerView::Failed(id.name() + " 不存在或没有本地地址"@)
        };
        self.replied(output, Some(pending), answer, None)
    }

    /// A listener takes no more connections; its endpoint goes when it has
    /// none left.
    pub open spec fn settle_close_listener(
        self,
        pending: Pending,
        id: QuicListenerId,
        output: OutputView,
    ) -> Settled {
        let place = self.listener_place(id, pending.source);
        if place >= self.endpoints.len() {
            self.replied(
                output,
                Some(pending),
                AnswerView::Failed(id.name() + " 不存在或不属于调用方"@),
                None,
            )
        } else if self.endpoints[place].connections.len() == 0 {
            Settled {
                state: StateView { endpoints: self.endpoints.remove(place), ..self },
                output: output.close(self.endpoints[place].socket).reply(
                    pending,
                    AnswerView::Done,
                ),
                socket: None,
                dropped: Some(place),
            }
        } else {
            StateView {
                endpoints: self.endpoints.update(
                    place,
                    EndpointView { listener: None, ..self.endpoints[place] },
                ),
                ..self
            }.replied(output, Some(pending), AnswerView::Done, None)
        }
    }

    /// A stream is opened.
    pub open spec fn settle_open(
        self,
        pending: Pending,
        id: QuicConnectionId,
        outcome: OutcomeView,
        output: OutputView,
    ) -> Settled {
        let answer = match self.obstacle(id, pending.source) {
            Some(reason) => AnswerView::Failed(reason),
            None => match outcome->Opened_0 {
                Some(stream) => AnswerView::Stream(QuicStreamId(stream)),
                None => AnswerView::Failed("对端 stream 配额已用完"@),
            },
        };
        self.replied(output, Some(pending), answer, self.socket_of(id))
    }

    /// Bytes are written to a stream.
    pub open spec fn settle_send(
        self,
        config: QuicConfig,
        pending: Pending,
        id: QuicConnectionId,
        stream: QuicStreamId,
        data: Seq<u8>,
        wait: bool,
        outcome: OutcomeView,
        output: OutputView,
    ) -> Settled {
        let waiter = if wait {
            Some(pending)
        } else {
            None
        };
        let obstacle = write_obstacle(self, config, pending.source, id, stream, data.len());
        let link = self.link(id);
        match obstacle {
            Some(reason) => self.replied(
                output,
                waiter,
                AnswerView::Failed(reason),
                if data.len() > config.max_chunk_size || call_obstacle(
                    self,
                    pending.source,
                    id,
                    stream,
                ) is Some {
                    None
                } else {
                    Some(link.endpoint_socket)
                },
            ),
            None => match outcome->Write_0 {
                WriteOutcomeView::Failed(reason) => self.replied(
                    output,
                    waiter,
                    AnswerView::Failed(reason),
                    Some(link.endpoint_socket),
                ),
                taken => {
                    let written = match taken {
                        WriteOutcomeView::Written(count) => count,
                        _ => 0,
                    };
                    let (queued, told) = link.wrote_first(
                        output,
                        stream.0,
                        data,
                        written,
                        waiter,
                        config.write_high_water as int,
                    );
                    Settled {
                        state: self.with_link(id, queued),
                        output: told,
                        socket: Some(link.endpoint_socket),
                        dropped: None,
                    }
                },
            },
        }
    }

    /// A stream is finished now, or after the writes that wait for it.
    pub open spec fn settle_finish(
        self,
        pending: Pending,
        id: QuicConnectionId,
        stream: QuicStreamId,
        outcome: OutcomeView,
        output: OutputView,
    ) -> Settled {
        let link = self.link(id);
        if self.obstacle(id, pending.source) is Some {
            self.replied(
                output,
                Some(pending),
                AnswerView::Failed(self.obstacle(id, pending.source)->0),
                None,
            )
        } else if stream_obstacle(stream) is Some {
            self.replied(
                output,
                Some(pending),
                AnswerView::Failed(stream_obstacle(stream)->0),
                Some(link.endpoint_socket),
            )
        } else if has_finish(link.finishes, stream.0) {
            self.replied(
                output,
                Some(pending),
                AnswerView::Failed(stream.name() + " 已经在等待 finish"@),
                Some(link.endpoint_socket),
            )
        } else if has_write(link.writes, stream.0) {
            Settled {
                state: self.with_link(
                    id,
                    LinkView {
                        finishes: link.finishes.push(QueuedFinish { stream: stream.0, pending }),
                        ..link
                    },
                ),
                output,
                socket: Some(link.endpoint_socket),
                dropped: None,
            }
        } else {
            self.replied(
                output,
                Some(pending),
                call_answer(outcome->Call_0),
                Some(link.endpoint_socket),
            )
        }
    }

    /// An operation with an error code on a stream.
    pub open spec fn settle_code(
        self,
        pending: Pending,
        id: QuicConnectionId,
        stream: QuicStreamId,
        error_code: u64,
        outcome: OutcomeView,
        output: OutputView,
    ) -> Settled {
        if error_code >= VARINT_BOUND {
            self.replied(
                output,
                Some(pending),
                AnswerView::Failed("QUIC error code 超出范围"@),
                None,
            )
        } else {
            let answer = match call_obstacle(self, pending.source, id, stream) {
                Some(reason) => AnswerView::Failed(reason),
                None => call_answer(outcome->Call_0),
            };
            self.replied(output, Some(pending), answer, self.socket_of(id))
        }
    }

    /// A datagram is sent.
    pub open spec fn settle_datagram(
        self,
        pending: Pending,
        id: QuicConnectionId,
        outcome: OutcomeView,
        output: OutputView,
    ) -> Settled {
        let answer = match self.obstacle(id, pending.source) {
            Some(reason) => AnswerView::Failed(reason),
            None => call_answer(outcome->Call_0),
        };
        self.replied(output, Some(pending), answer, self.socket_of(id))
    }

    /// A connection is closed with a code.
    pub open spec fn settle_close(
        self,
        pending: Pending,
        id: QuicConnectionId,
        error_code: u64,
        output: OutputView,
    ) -> Settled {
        if error_code >= VARINT_BOUND {
            self.replied(
                output,
                Some(pending),
                AnswerView::Failed("QUIC error code 超出范围"@),
                None,
            )
        } else {
            let answer = match self.obstacle(id, pending.source) {
                Some(reason) => AnswerView::Failed(reason),
                None => AnswerView::Done,
            };
            self.replied(output, Some(pending), answer, self.socket_of(id))
        }
    }

    /// What is known of one connection.
    pub open spec fn settle_info(
        self,
        pending: Pending,
        id: QuicConnectionId,
        outcome: OutcomeView,
        output: OutputView,
    ) -> Settled {
        let answer = if self.has_link(id) {
            AnswerView::Info(self.link(id).info(outcome->Info_0))
        } else {
            AnswerView::Failed(id.name() + " 不存在"@)
        };
        self.replied(output, Some(pending), answer, None)
    }

    /// What is known of all connections, in the order of their numbers.
    pub open spec fn infos(self, known: Seq<ProtoInfoView>) -> Seq<InfoView> {
        Seq::new(self.links.len(), |i: int| self.links[i].info(known[i]))
    }

    /// What a request leaves, given what the protocol engine answered.
    pub open spec fn settle(
        self,
        config: QuicConfig,
        pending: Pending,
        command: Command,
        outcome: OutcomeView,
        output: OutputView,
    ) -> Settled {
        match command {
            Command::Start(id) => self.settle_start(pending, id, output),
            Command::ListenerLocalAddr(id) => self.settle_local_addr(pending, id, output),
            Command::CloseListener(id) => self.settle_close_listener(pending, id, output),
            Command::OpenBi(id) => self.settle_open(pending, id, outcome, output),
            Command::OpenUni(id) => self.settle_open(pending, id, outcome, output),
            Command::Send { id, stream, data, wait } => self.settle_send(
                config,
                pending,
                id,
                stream,
                data@,
                wait,
                outcome,
                output,
            ),
            Command::Finish { id, stream } => self.settle_finish(
                pending,
                id,
                stream,
                outcome,
                output,
            ),
            Command::Reset { id, stream, error_code } => self.settle_code(
                pending,
                id,
                stream,
                error_code,
                outcome,
                output,
            ),
            Command::Stop { id, stream, error_code } => self.settle_code(
                pending,
                id,
                stream,
                error_code,
                outcome,
                output,
            ),
            Command::SendDatagram { id, data } => self.settle_datagram(
                pending,
                id,
                outcome,
                output,
            ),
            Command::Close { id, error_code, reason } => self.settle_close(
                pending,
                id,
                error_code,
                output,
            ),
            Command::Shutdown(id) => Settled {
                state: self,
                output,
                socket: if self.obstacle(id, pending.source) is None {
                    self.socket_of(id)
                } else {
                    None
                },
                dropped: None,
            },
            Command::Info(id) => self.settle_info(pending, id, outcome, output),
            Command::Netstat => self.replied(
                output,
                Some(pending),
                AnswerView::Infos(self.infos(outcome->Infos_0)),
                None,
            ),
            _ => Settled { state: self, output, socket: None, dropped: None },
        }
    }

    /// Where a request comes to its stream, that is one that its connection
    /// can use in the way the request asks for: one that this side sends on,
    /// or receives on.
    pub open spec fn usable(self, config: QuicConfig, pending: Pending, command: Command) -> bool {
        let consult = self.consult(config, pending, command);
        match command {
            Command::Send { id, stream, .. } => consult is Write ==> sends(
                self.link(id).is_server(),
                stream.0,
            ),
            Command::Finish { id, stream } => consult is Finish ==> sends(
                self.link(id).is_server(),
                stream.0,
            ),
            Command::Reset { id, stream, .. } => consult is Reset ==> sends(
                self.link(id).is_server(),
                stream.0,
            ),
            Command::Stop { id, stream, .. } => consult is Stop ==> receives(
                self.link(id).is_server(),
                stream.0,
            ),
            _ => true,
        }
    }

    /// Where a write comes to its stream, its bytes can be counted on top of
    /// those that wait.
    pub open spec fn countable(
        self,
        config: QuicConfig,
        pending: Pending,
        command: Command,
    ) -> bool {
        command matches Command::Send { id, data, .. } ==> self.consult(
            config,
            pending,
            command,
        ) is Write ==> self.link(id).buffered_bytes + data@.len() <= usize::MAX
    }
}

impl StateView {
    /// Without one endpoint, no socket has two.
    pub proof fn lemma_fewer_endpoints(self, before: StateView, place: int)
        requires
            before.wf(),
            0 <= place < before.endpoints.len(),
            self.endpoints == before.endpoints.remove(place),
            self.links == before.links,
        ensures
            self.wf(),
    {
        assert forall|i: int, j: int| 0 <= i < j < self.endpoints.len() implies (
        #[trigger] self.endpoints[i]).socket != (#[trigger] self.endpoints[j]).socket by {
            let k = if i < place {
                i
            } else {
                i + 1
            };
            let l = if j < place {
                j
            } else {
                j + 1
            };
            assert(before.endpoints[k].socket != before.endpoints[l].socket);
        }
        assert forall|i: int| 0 <= i < self.links.len() implies (#[trigger] self.links[i]).wf() by {
            assert(before.links[i].wf());
        }
    }

    /// Endpoints that keep their sockets keep them apart.
    pub proof fn lemma_same_sockets(self, before: StateView)
        requires
            before.wf(),
            self.endpoints.len() == before.endpoints.len(),
            forall|i: int|
                0 <= i < self.endpoints.len() ==> (#[trigger] self.endpoints[i]).socket
                    == before.endpoints[i].socket,
            self.links == before.links,
        ensures
            self.wf(),
    {
        assert forall|i: int, j: int| 0 <= i < j < self.endpoints.len() implies (
        #[trigger] self.endpoints[i]).socket != (#[trigger] self.endpoints[j]).socket by {
            assert(before.endpoints[i].socket != before.endpoints[j].socket);
        }
        assert forall|i: int| 0 <= i < self.links.len() implies (#[trigger] self.links[i]).wf() by {
            assert(before.links[i].wf());
        }
    }
}

/// What a step leaves beside the books and the output.
#[derive(Debug, Clone, Copy, PartialEq, Eq, Structural)]
pub struct Followup {
    /// The socket that may have something to send now.
    pub socket: Option<u32>,
    /// The place of the endpoint that was dropped.
    pub dropped: Option<usize>,
}

impl State {
    /// What a request needs from the protocol engine.
    pub fn consult(&self, config: &QuicConfig, pending: Pending, command: &Command) -> (consult:
        Consult)
        ensures
            consult == self@.consult(*config, pending, *command),
    {
        let caller: u32 = pending.source;
        match command {
            Command::OpenBi(id) => match self.owned_connection(*id, caller) {
                Ok(place) => Consult::Open { place, bidirectional: true },
                Err(_) => Consult::Nothing,
            },
            Command::OpenUni(id) => match self.owned_connection(*id, caller) {
                Ok(place) => Consult::Open { place, bidirectional: false },
                Err(_) => Consult::Nothing,
            },
            Command::Send { id, stream, data, wait: _ } => {
                if data.len() > config.max_chunk_size {
                    return Consult::Nothing;
                }
                match self.owned_connection(*id, caller) {
                    Ok(place) => {
                        assert(self@.links[place as int] == self.links@[place as int]@);
                        if proto_stream_id(*stream).is_err() || self.links[place].find_finish(
                            stream.0,
                        ).is_some() {
                            Consult::Nothing
                        } else {
                            Consult::Write { place, stream: stream.0 }
                        }
                    },
                    Err(_) => Consult::Nothing,
                }
            },
            Command::Finish { id, stream } => match self.owned_connection(*id, caller) {
                Ok(place) => {
                    assert(self@.links[place as int] == self.links@[place as int]@);
                    if proto_stream_id(*stream).is_err() || self.links[place].find_finish(
                        stream.0,
                    ).is_some() || self.links[place].find_write(stream.0).is_some() {
                        Consult::Nothing
                    } else {
                        Consult::Finish { place, stream: stream.0 }
                    }
                },
                Err(_) => Consult::Nothing,
            },
            Command::Reset { id, stream, error_code } => {
                if checked_error_code(*error_code).is_err() {
                    return Consult::Nothing;
                }
                match self.owned_connection(*id, caller) {
                    Ok(place) => if proto_stream_id(*stream).is_err() {
                        Consult::Nothing
                    } else {
                        Consult::Reset { place, stream: stream.0, code: *error_code }
                    },
                    Err(_) => Consult::Nothing,
                }
            },
            Command::Stop { id, stream, error_code } => {
                if checked_error_code(*error_code).is_err() {
                    return Consult::Nothing;
                }
                match self.owned_connection(*id, caller) {
                    Ok(place) => if proto_stream_id(*stream).is_err() {
                        Consult::Nothing
                    } else {
                        Consult::Stop { place, stream: stream.0, code: *error_code }
                    },
                    Err(_) => Consult::Nothing,
                }
            },
            Command::SendDatagram { id, data: _ } => match self.owned_connection(*id, caller) {
                Ok(place) => Consult::Datagram { place },
                Err(_) => Consult::Nothing,
            },
            Command::Close { id, error_code, reason: _ } => {
                if checked_error_code(*error_code).is_err() {
                    return Consult::Nothing;
                }
                match self.owned_connection(*id, caller) {
                    Ok(place) => Consult::Close { place, code: *error_code },
                    Err(_) => Consult::Nothing,
                }
            },
            Command::Shutdown(id) => match self.owned_connection(*id, caller) {
                Ok(place) => Consult::Close { place, code: 0 },
                Err(_) => Consult::Nothing,
            },
            Command::Info(id) => match self.find_link(*id) {
                Some(place) => Consult::Info { place },
                None => Consult::Nothing,
            },
            Command::Netstat => Consult::Infos,
            _ => Consult::Nothing,
        }
    }

    /// Whether a request can be carried out at all: where it comes to its
    /// stream, that is one that its connection can use in that way, and its
    /// bytes can be counted.
    pub fn admits(&self, config: &QuicConfig, pending: Pending, command: &Command) -> (admitted:
        bool)
        ensures
            admitted == (self@.usable(*config, pending, *command) && self@.countable(
                *config,
                pending,
                *command,
            )),
    {
        let consult = self.consult(config, pending, command);
        let id = match command {
            Command::Send { id, .. } => *id,
            Command::Finish { id, .. } => *id,
            Command::Reset { id, .. } => *id,
            Command::Stop { id, .. } => *id,
            _ => {
                return true;
            },
        };
        let place = match self.find_link(id) {
            Some(place) => place,
            None => {
                return true;
            },
        };
        assert(self@.links[place as int] == self.links@[place as int]@);
        let server = self.links[place].listener.is_some();
        match (consult, command) {
            (Consult::Write { stream, .. }, Command::Send { data, .. }) => {
                is_sending_side(server, stream) && self.links[place].buffered_bytes <= usize::MAX
                    - data.len()
            },
            (Consult::Finish { stream, .. }, _) => is_sending_side(server, stream),
            (Consult::Reset { stream, .. }, _) => is_sending_side(server, stream),
            (Consult::Stop { stream, .. }, _) => is_receiving_side(server, stream),
            _ => true,
        }
    }

    /// A caller takes a connection over and gets the events that waited.
    fn settle_start(
        &mut self,
        pending: Pending,
        id: QuicConnectionId,
        output: &mut DriveOutput,
    ) -> (followup: Followup)
        requires
            old(self)@.wf(),
        ensures
            settled(
                old(self)@.settle_start(pending, id, old(output)@),
                final(self)@,
                final(output)@,
                followup,
            ),
            final(self)@.wf(),
    {
        match self.find_link(id) {
            None => {
                let mut reason = id.text();
                reason.append(" 不存在");
                output.reply(pending, Answer::Failed(reason));
                Followup { socket: None, dropped: None }
            },
            Some(place) => {
                let ghost before = self.links@[place as int]@;
                assert(self@.links[place as int] == before);
                let mut events: Vec<QuicEvent> = Vec::new();
                std::mem::swap(&mut events, &mut self.links[place].queued_events);
                self.links[place].owner = pending.source;
                self.links[place].started = true;
                let socket: u32 = self.links[place].endpoint_socket;
                proof {
                    before.lemma_same_books(self.links@[place as int]@);
                    assert(self.links@ =~= old(self).links@.update(
                        place as int,
                        self.links@[place as int],
                    ));
                    assert(self.links@[place as int]@.queued_events =~= Seq::empty());
                    self.lemma_one_link(*old(self), place as int);
                }
                let ghost queued = before.queued_events.map_values(
                    |event: EventView| (pending.source, event),
                );
                assert(queued =~= events@.map_values(
                    |event: QuicEvent| (pending.source, event@),
                ));
                deliver(pending.source, events, output);
                output.reply(pending, Answer::Done);
                Followup { socket: Some(socket), dropped: None }
            },
        }
    }

    /// The books after a change to the books of one connection alone.
    pub proof fn lemma_one_link(self, before: State, place: int)
        requires
            0 <= place < before.links@.len(),
            before@.wf(),
            self.next_listener == before.next_listener,
            self.next_connection == before.next_connection,
            self.endpoints == before.endpoints,
            self.reserved_connections == before.reserved_connections,
            self.reserved_handshakes == before.reserved_handshakes,
            self.links@ == before.links@.update(place, self.links@[place]),
            self.links@[place]@.wf(),
            self.links@[place].id == before.links@[place].id,
        ensures
            self@ == (StateView {
                links: before@.links.update(place, self.links@[place]@),
                ..before@
            }),
            self@.wf(),
    {
        assert(self@.links =~= before@.links.update(place, self.links@[place]@));
        assert forall|i: int, j: int| 0 <= i < j < self@.links.len() implies (
        #[trigger] self@.links[i]).id.0 < (#[trigger] self@.links[j]).id.0 by {
            assert(before@.links[i].id.0 < before@.links[j].id.0);
        }
        assert forall|i: int| 0 <= i < self@.links.len() implies (#[trigger] self@.links[i]).wf() by {
            assert(before@.links[i].wf());
        }
        assert forall|i: int, j: int| 0 <= i < j < self@.endpoints.len() implies (
        #[trigger] self@.endpoints[i]).socket != (#[trigger] self@.endpoints[j]).socket by {
            assert(before@.endpoints[i].socket != before@.endpoints[j].socket);
        }
    }

    /// A listener's address.
    fn settle_local_addr(
        &self,
        pending: Pending,
        id: QuicListenerId,
        output: &mut DriveOutput,
    ) -> (followup: Followup)
        ensures
            settled(
                self@.settle_local_addr(pending, id, old(output)@),
                self@,
                final(output)@,
                followup,
            ),
    {
        let mut address: Option<String> = None;
        if let Some(place) = self.find_listener(id, pending.source) {
            assert(self@.endpoints[place as int] == self.endpoints@[place as int]@);
            address = clone_text(&self.endpoints[place].local);
        }
        let answer = match address {
            Some(address) => Answer::LocalAddr(address),
            None => {
                let mut reason = id.text();
                reason.append(" 不存在或没有本地地址");
                Answer::Failed(reason)
            },
        };
        output.reply(pending, answer);
        Followup { socket: None, dropped: None }
    }

    /// A listener takes no more connections; its endpoint goes when it has
    /// none left.
    fn settle_close_listener(
        &mut self,
        pending: Pending,
        id: QuicListenerId,
        output: &mut DriveOutput,
    ) -> (followup: Followup)
        requires
            old(self)@.wf(),
        ensures
            settled(
                old(self)@.settle_close_listener(pending, id, old(output)@),
                final(self)@,
                final(output)@,
                followup,
            ),
            final(self)@.wf(),
    {
        match self.find_listener(id, pending.source) {
            None => {
                let mut reason = id.text();
                reason.append(" 不存在或不属于调用方");
                output.reply(pending, Answer::Failed(reason));
                Followup { socket: None, dropped: None }
            },
            Some(place) => {
                assert(self@.endpoints[place as int] == self.endpoints@[place as int]@);
                if self.endpoints[place].connections.len() == 0 {
                    let endpoint = self.endpoints.remove(place);
                    proof {
                        assert(self@.endpoints =~= old(self)@.endpoints.remove(place as int));
                        self@.lemma_fewer_endpoints(old(self)@, place as int);
                    }
                    output.close(endpoint.socket);
                    output.reply(pending, Answer::Done);
                    Followup { socket: None, dropped: Some(place) }
                } else {
                    self.endpoints[place].listener = None;
                    proof {
                        assert(self@.endpoints =~= old(self)@.endpoints.update(
                            place as int,
                            EndpointView {
                                listener: None,
                                ..old(self)@.endpoints[place as int]
                            },
                        ));
                        self@.lemma_same_sockets(old(self)@);
                    }
                    output.reply(pending, Answer::Done);
                    Followup { socket: None, dropped: None }
                }
            },
        }
    }

    /// A stream is opened.
    fn settle_open(
        &self,
        pending: Pending,
        id: QuicConnectionId,
        outcome: Outcome,
        output: &mut DriveOutput,
    ) -> (followup: Followup)
        requires
            self@.obstacle(id, pending.source) is None ==> outcome is Opened,
        ensures
            settled(
                self@.settle_open(pending, id, outcome@, old(output)@),
                self@,
                final(output)@,
                followup,
            ),
    {
        let answer = match self.owned_connection(id, pending.source) {
            Err(reason) => Answer::Failed(reason),
            Ok(_) => match outcome {
                Outcome::Opened(Some(stream)) => Answer::Stream(QuicStreamId(stream)),
                _ => Answer::Failed("对端 stream 配额已用完".to_owned()),
            },
        };
        output.reply(pending, answer);
        Followup { socket: self.socket_of(id), dropped: None }
    }

    /// The socket of a connection, if it is there.
    pub fn socket_of(&self, id: QuicConnectionId) -> (socket: Option<u32>)
        ensures
            socket == self@.socket_of(id),
    {
        match self.find_link(id) {
            Some(place) => {
                assert(self@.links[place as int] == self.links@[place as int]@);
                Some(self.links[place].endpoint_socket)
            },
            None => None,
        }
    }

    /// Why a write is refused before the stream is asked, if it is, and the
    /// place of its connection otherwise.
    fn write_obstacle(
        &self,
        config: &QuicConfig,
        caller: u32,
        id: QuicConnectionId,
        stream: QuicStreamId,
        length: usize,
    ) -> (result: Result<usize, (String, Option<u32>)>)
        ensures
            match result {
                Ok(place) => write_obstacle(self@, *config, caller, id, stream, length as nat) is None
                    && place == self@.link_place(id) && place < self.links@.len(),
                Err((reason, socket)) => write_obstacle(
                    self@,
                    *config,
                    caller,
                    id,
                    stream,
                    length as nat,
                ) == Some(reason@) && socket == (if length > config.max_chunk_size || call_obstacle(
                    self@,
                    caller,
                    id,
                    stream,
                ) is Some {
                    None
                } else {
                    Some(self@.link(id).endpoint_socket)
                }),
            },
    {
        if length > config.max_chunk_size {
            let mut reason = "单次 QUIC 写入 ".to_owned();
            push_decimal(&mut reason, length as u64);
            reason.append(" 字节，超过上限 ");
            push_decimal(&mut reason, config.max_chunk_size as u64);
            return Err((reason, None));
        }
        match self.owned_connection(id, caller) {
            Err(_) => {
                let mut reason = id.text();
                reason.append(" 不存在或不属于调用方");
                Err((reason, None))
            },
            Ok(place) => {
                assert(self@.links[place as int] == self.links@[place as int]@);
                match proto_stream_id(stream) {
                    Err(reason) => Err((reason, None)),
                    Ok(number) => {
                        if self.links[place].find_finish(number).is_some() {
                            let mut reason = stream.text();
                            reason.append(" 已经在等待 finish");
                            return Err((reason, Some(self.links[place].endpoint_socket)));
                        }
                        Ok(place)
                    },
                }
            },
        }
    }

    /// Bytes are written to a stream.
    fn settle_send(
        &mut self,
        config: &QuicConfig,
        pending: Pending,
        id: QuicConnectionId,
        stream: QuicStreamId,
        data: Vec<u8>,
        wait: bool,
        outcome: Outcome,
        output: &mut DriveOutput,
    ) -> (followup: Followup)
        requires
            old(self)@.wf(),
            write_obstacle(old(self)@, *config, pending.source, id, stream, data@.len()) is None
                ==> old(self)@.link(id).buffered_bytes + data@.len() <= usize::MAX,
            write_obstacle(old(self)@, *config, pending.source, id, stream, data@.len()) is None
                ==> (outcome matches Outcome::Write(write) && (
            write matches WriteOutcome::Written(count) ==> count <= data@.len())),
            write_obstacle(old(self)@, *config, pending.source, id, stream, data@.len()) is None
                ==> old(self)@.link(id).admits(stream.0),
        ensures
            settled(
                old(self)@.settle_send(
                    *config,
                    pending,
                    id,
                    stream,
                    data@,
                    wait,
                    outcome@,
                    old(output)@,
                ),
                final(self)@,
                final(output)@,
                followup,
            ),
            final(self)@.wf(),
    {
        let waiter = if wait {
            Some(pending)
        } else {
            None
        };
        match self.write_obstacle(config, pending.source, id, stream, data.len()) {
            Err((reason, socket)) => {
                output.reply_to(waiter, Answer::Failed(reason));
                Followup { socket, dropped: None }
            },
            Ok(place) => {
                let ghost before = self.links@[place as int]@;
                assert(self@.links[place as int] == before);
                let socket: u32 = self.links[place].endpoint_socket;
                let mut written: usize = 0;
                if let Outcome::Write(write) = outcome {
                    match write {
                        WriteOutcome::Failed(reason) => {
                            output.reply_to(waiter, Answer::Failed(reason));
                            return Followup { socket: Some(socket), dropped: None };
                        },
                        WriteOutcome::Written(count) => {
                            written = count;
                        },
                        WriteOutcome::Blocked => {},
                    }
                }
                self.links[place].wrote_first(
                    stream.0,
                    data,
                    written,
                    waiter,
                    config.write_high_water,
                    output,
                );
                proof {
                    self.lemma_one_link(*old(self), place as int);
                }
                Followup { socket: Some(socket), dropped: None }
            },
        }
    }

    /// A stream is finished now, or after the writes that wait for it.
    fn settle_finish(
        &mut self,
        pending: Pending,
        id: QuicConnectionId,
        stream: QuicStreamId,
        outcome: Outcome,
        output: &mut DriveOutput,
    ) -> (followup: Followup)
        requires
            old(self)@.wf(),
            (call_obstacle(old(self)@, pending.source, id, stream) is None && !has_finish(
                old(self)@.link(id).finishes,
                stream.0,
            ) && !has_write(old(self)@.link(id).writes, stream.0)) ==> outcome is Call,
        ensures
            settled(
                old(self)@.settle_finish(pending, id, stream, outcome@, old(output)@),
                final(self)@,
                final(output)@,
                followup,
            ),
            final(self)@.wf(),
    {
        let place = match self.owned_connection(id, pending.source) {
            Err(reason) => {
                output.reply(pending, Answer::Failed(reason));
                return Followup { socket: None, dropped: None };
            },
            Ok(place) => place,
        };
        let ghost before = self.links@[place as int]@;
        assert(self@.links[place as int] == before);
        let followup = Followup {
            socket: Some(self.links[place].endpoint_socket),
            dropped: None,
        };
        match proto_stream_id(stream) {
            Err(reason) => {
                output.reply(pending, Answer::Failed(reason));
            },
            Ok(number) => {
                if self.links[place].find_finish(number).is_some() {
                    let mut reason = stream.text();
                    reason.append(" 已经在等待 finish");
                    output.reply(pending, Answer::Failed(reason));
                } else if self.links[place].find_write(number).is_some() {
                    self.links[place].finishes.push(QueuedFinish { stream: number, pending });
                    proof {
                        let after = self.links@[place as int]@;
                        let queued = QueuedFinish { stream: number, pending };
                        assert(after.finishes =~= before.finishes.push(queued));
                        before.lemma_more_finishes(after, queued);
                        self.lemma_one_link(*old(self), place as int);
                    }
                } else {
                    match outcome {
                        Outcome::Call(outcome) => {
                            output.reply(pending, answer_of(outcome));
                        },
                        _ => {
                            assert(false);
                        },
                    }
                }
            },
        }
        followup
    }

    /// An operation with an error code on a stream.
    fn settle_code(
        &self,
        pending: Pending,
        id: QuicConnectionId,
        stream: QuicStreamId,
        error_code: u64,
        outcome: Outcome,
        output: &mut DriveOutput,
    ) -> (followup: Followup)
        requires
            (error_code < VARINT_BOUND && call_obstacle(self@, pending.source, id, stream) is None)
                ==> outcome is Call,
        ensures
            settled(
                self@.settle_code(pending, id, stream, error_code, outcome@, old(output)@),
                self@,
                final(output)@,
                followup,
            ),
    {
        if let Err(reason) = checked_error_code(error_code) {
            output.reply(pending, Answer::Failed(reason));
            return Followup { socket: None, dropped: None };
        }
        let answer = match self.owned_connection(id, pending.source) {
            Err(reason) => Answer::Failed(reason),
            Ok(_) => match proto_stream_id(stream) {
                Err(reason) => Answer::Failed(reason),
                Ok(_) => match outcome {
                    Outcome::Call(outcome) => answer_of(outcome),
                    _ => {
                        assert(false);
                        Answer::Done
                    },
                },
            },
        };
        output.reply(pending, answer);
        Followup { socket: self.socket_of(id), dropped: None }
    }

    /// A datagram is sent.
    fn settle_datagram(
        &self,
        pending: Pending,
        id: QuicConnectionId,
        outcome: Outcome,
        output: &mut DriveOutput,
    ) -> (followup: Followup)
        requires
            self@.obstacle(id, pending.source) is None ==> outcome is Call,
        ensures
            settled(
                self@.settle_datagram(pending, id, outcome@, old(output)@),
                self@,
                final(output)@,
                followup,
            ),
    {
        let answer = match self.owned_connection(id, pending.source) {
            Err(reason) => Answer::Failed(reason),
            Ok(_) => match outcome {
                Outcome::Call(outcome) => answer_of(outcome),
                _ => {
                    assert(false);
                    Answer::Done
                },
            },
        };
        output.reply(pending, answer);
        Followup { socket: self.socket_of(id), dropped: None }
    }

    /// A connection is closed with a code.
    fn settle_close(
        &self,
        pending: Pending,
        id: QuicConnectionId,
        error_code: u64,
        output: &mut DriveOutput,
    ) -> (followup: Followup)
        ensures
            settled(
                self@.settle_close(pending, id, error_code, old(output)@),
                self@,
                final(output)@,
                followup,
            ),
    {
        if let Err(reason) = checked_error_code(error_code) {
            output.reply(pending, Answer::Failed(reason));
            return Followup { socket: None, dropped: None };
        }
        let answer = match self.owned_connection(id, pending.source) {
            Err(reason) => Answer::Failed(reason),
            Ok(_) => Answer::Done,
        };
        output.reply(pending, answer);
        Followup { socket: self.socket_of(id), dropped: None }
    }

    /// What is known of one connection.
    fn settle_info(
        &self,
        pending: Pending,
        id: QuicConnectionId,
        outcome: Outcome,
        output: &mut DriveOutput,
    ) -> (followup: Followup)
        requires
            self@.has_link(id) ==> outcome is Info,
        ensures
            settled(
                self@.settle_info(pending, id, outcome@, old(output)@),
                self@,
                final(output)@,
                followup,
            ),
    {
        let answer = match self.find_link(id) {
            None => {
                let mut reason = id.text();
                reason.append(" 不存在");
                Answer::Failed(reason)
            },
            Some(place) => {
                assert(self@.links[place as int] == self.links@[place as int]@);
                match outcome {
                    Outcome::Info(known) => Answer::Info(self.links[place].info(known)),
                    _ => {
                        assert(false);
                        Answer::Done
                    },
                }
            },
        };
        output.reply(pending, answer);
        Followup { socket: None, dropped: None }
    }

    /// What is known of all connections, in the order of their numbers.
    pub fn infos(&self, known: Vec<ProtoInfo>) -> (infos: Vec<QuicInfo>)
        requires
            known@.len() == self.links@.len(),
        ensures
            infos@.map_values(|info: QuicInfo| info@) == self@.infos(
                known@.map_values(|i: ProtoInfo| i@),
            ),
    {
        let ghost all = known@;
        let mut rest = known;
        let mut reversed: Vec<ProtoInfo> = Vec::new();
        while rest.len() > 0
            invariant
                rest@ == all.take(all.len() - reversed@.len()),
                reversed@.len() <= all.len(),
                forall|i: int|
                    0 <= i < reversed@.len() ==> #[trigger] reversed@[i] == all[all.len() - 1 - i],
            decreases rest@.len(),
        {
            if let Some(last) = rest.pop() {
                reversed.push(last);
            }
            assert(rest@ =~= all.take(all.len() - reversed@.len()));
        }
        let mut infos: Vec<QuicInfo> = Vec::new();
        while infos.len() < self.links.len()
            invariant
                all.len() == self.links@.len(),
                infos@.len() + reversed@.len() == all.len(),
                forall|i: int|
                    0 <= i < reversed@.len() ==> #[trigger] reversed@[i] == all[all.len() - 1 - i],
                forall|i: int|
                    0 <= i < infos@.len() ==> (#[trigger] infos@[i])@ == self.links@[i]@.info(
                        all[i]@,
                    ),
            decreases self.links@.len() - infos@.len(),
        {
            let place: usize = infos.len();
            if let Some(next) = reversed.pop() {
                infos.push(self.links[place].info(next));
            }
        }
        assert(infos@.map_values(|info: QuicInfo| info@) =~= self@.infos(
            all.map_values(|i: ProtoInfo| i@),
        ));
        infos
    }

    /// Enters a request into the books, given what the protocol engine
    /// answered.
    pub fn settle(
        &mut self,
        config: &QuicConfig,
        pending: Pending,
        command: Command,
        outcome: Outcome,
        output: &mut DriveOutput,
    ) -> (followup: Followup)
        requires
            old(self)@.wf(),
            performable(command),
            old(self)@.countable(*config, pending, command),
            old(self)@.usable(*config, pending, command),
            answers(
                old(self)@.consult(*config, pending, command),
                command,
                old(self)@.links.len() as int,
                outcome@,
            ),
        ensures
            settled(
                old(self)@.settle(*config, pending, command, outcome@, old(output)@),
                final(self)@,
                final(output)@,
                followup,
            ),
            final(self)@.wf(),
    {
        match command {
            Command::Start(id) => self.settle_start(pending, id, output),
            Command::ListenerLocalAddr(id) => self.settle_local_addr(pending, id, output),
            Command::CloseListener(id) => self.settle_close_listener(pending, id, output),
            Command::OpenBi(id) => self.settle_open(pending, id, outcome, output),
            Command::OpenUni(id) => self.settle_open(pending, id, outcome, output),
            Command::Send { id, stream, data, wait } => self.settle_send(
                config,
                pending,
                id,
                stream,
                data,
                wait,
                outcome,
                output,
            ),
            Command::Finish { id, stream } => self.settle_finish(
                pending,
                id,
                stream,
                outcome,
                output,
            ),
            Command::Reset { id, stream, error_code } => self.settle_code(
                pending,
                id,
                stream,
                error_code,
                outcome,
                output,
            ),
            Command::Stop { id, stream, error_code } => self.settle_code(
                pending,
                id,
                stream,
                error_code,
                outcome,
                output,
            ),
            Command::SendDatagram { id, data: _ } => self.settle_datagram(
                pending,
                id,
                outcome,
                output,
            ),
            Command::Close { id, error_code, reason: _ } => self.settle_close(
                pending,
                id,
                error_code,
                output,
            ),
            Command::Shutdown(id) => match self.owned_connection(id, pending.source) {
                Ok(_) => Followup { socket: self.socket_of(id), dropped: None },
                Err(_) => Followup { socket: None, dropped: None },
            },
            Command::Info(id) => self.settle_info(pending, id, outcome, output),
            Command::Netstat => {
                match outcome {
                    Outcome::Infos(known) => {
                        let infos = self.infos(known);
                        output.reply(pending, Answer::Infos(infos));
                    },
                    _ => {
                        assert(false);
                    },
                }
                Followup { socket: None, dropped: None }
            },
            _ => {
                assert(false);
                Followup { socket: None, dropped: None }
            },
        }
    }
}

/// The three parts of what a request leaves are those of `expected`.
pub open spec fn settled(
    expected: Settled,
    state: StateView,
    output: OutputView,
    followup: Followup,
) -> bool {
    &&& state == expected.state
    &&& output == expected.output
    &&& followup.socket == expected.socket
    &&& match followup.dropped {
        None => expected.dropped is None,
        Some(place) => expected.dropped == Some(place as int),
    }
}

/// Sends events to an owner.
fn deliver(owner: u32, events: Vec<QuicEvent>, output: &mut DriveOutput)
    ensures
        final(output)@ == (OutputView {
            events: old(output)@.events + events@.map_values(
                |event: QuicEvent| (owner, event@),
            ),
            ..old(output)@
        }),
{
    let ghost all = events@;
    let mut rest = events;
    let mut reversed: Vec<QuicEvent> = Vec::new();
    while rest.len() > 0
        invariant
            rest@ == all.take(all.len() - reversed@.len()),
            reversed@.len() <= all.len(),
            forall|i: int|
                0 <= i < reversed@.len() ==> #[trigger] reversed@[i] == all[all.len() - 1 - i],
        decreases rest@.len(),
    {
        if let Some(last) = rest.pop() {
            reversed.push(last);
        }
        assert(rest@ =~= all.take(all.len() - reversed@.len()));
    }
    let ghost sent = all.map_values(|event: QuicEvent| (owner, event@));
    assert(sent.take(0) =~= Seq::empty());
    assert(old(output)@.events + sent.take(0) =~= old(output)@.events);
    while reversed.len() > 0
        invariant
            reversed@.len() <= all.len(),
            sent == all.map_values(|event: QuicEvent| (owner, event@)),
            forall|i: int|
                0 <= i < reversed@.len() ==> #[trigger] reversed@[i] == all[all.len() - 1 - i],
            output@ == (OutputView {
                events: old(output)@.events + sent.take(all.len() - reversed@.len()),
                ..old(output)@
            }),
        decreases reversed@.len(),
    {
        let ghost done = all.len() - reversed@.len();
        if let Some(next) = reversed.pop() {
            assert(next == all[done]);
            output.event(owner, next);
        }
        assert(sent.take(done + 1) =~= sent.take(done).push(sent[done]));
        assert(old(output)@.events + sent.take(done + 1) =~= (old(output)@.events + sent.take(
            done,
        )).push(sent[done]));
    }
    assert(sent.take(all.len() as int) =~= sent);
}

} // verus!
