//! Bookkeeping of one connection: who owns it, which events wait for its
//! start, which writes wait for flow control and which streams are to be
//! finished after them.

use crate::quic::command::{Answer, VARINT_BOUND};
use crate::quic::event::{
    clone_bytes, clone_text, QuicConnectionId, QuicEvent, QuicInfo, QuicListenerId, QuicStreamId,
};
use crate::quic::outcome::{CallOutcome, ProtoInfo, ReadOutcome, WriteOutcome};
use crate::quic::output::{DriveOutput, Pending};
#[allow(unused_imports)]
use crate::quic::{
    command::AnswerView,
    event::{bytes_view, text_view, EventView, InfoView},
    outcome::{CallOutcomeView, ProtoInfoView, ReadOutcomeView, WriteOutcomeView},
    output::OutputView,
};
use vstd::prelude::*;

verus! {

/// Bytes that wait for a stream to take them.
#[derive(Debug)]
pub struct QueuedWrite {
    pub stream: u64,
    pub data: Vec<u8>,
    /// So many bytes were taken already.
    pub offset: usize,
    pub pending: Option<Pending>,
}

/// What a [`QueuedWrite`] says.
#[verifier::ext_equal]
pub struct WriteView {
    pub stream: u64,
    pub data: Seq<u8>,
    pub offset: int,
    pub pending: Option<Pending>,
}

impl View for QueuedWrite {
    type V = WriteView;

    open spec fn view(&self) -> WriteView {
        WriteView {
            stream: self.stream,
            data: self.data@,
            offset: self.offset as int,
            pending: self.pending,
        }
    }
}

impl WriteView {
    /// Bytes that were not taken yet.
    pub open spec fn remaining(self) -> int {
        self.data.len() - self.offset
    }
}

/// A stream to finish when its writes are through, and who waits for it.
#[derive(Debug, Clone, Copy, PartialEq, Eq, Structural)]
pub struct QueuedFinish {
    pub stream: u64,
    pub pending: Pending,
}

/// Bookkeeping of one connection. Writes stand in the order they came in,
/// those of all streams together.
#[derive(Debug)]
pub struct Link {
    pub id: QuicConnectionId,
    pub endpoint_socket: u32,
    pub owner: u32,
    pub listener: Option<QuicListenerId>,
    pub local: Option<String>,
    pub started: bool,
    pub announced: bool,
    pub alpn: Option<Vec<u8>>,
    pub connect_pending: Option<Pending>,
    pub queued_events: Vec<QuicEvent>,
    pub writes: Vec<QueuedWrite>,
    pub finishes: Vec<QueuedFinish>,
    pub buffered_bytes: usize,
    pub warned: bool,
}

/// What a [`Link`] says.
#[verifier::ext_equal]
pub struct LinkView {
    pub id: QuicConnectionId,
    pub endpoint_socket: u32,
    pub owner: u32,
    pub listener: Option<QuicListenerId>,
    pub local: Option<Seq<char>>,
    pub started: bool,
    pub announced: bool,
    pub alpn: Option<Seq<u8>>,
    pub connect_pending: Option<Pending>,
    pub queued_events: Seq<EventView>,
    pub writes: Seq<WriteView>,
    pub finishes: Seq<QueuedFinish>,
    pub buffered_bytes: int,
    pub warned: bool,
}

impl View for Link {
    type V = LinkView;

    open spec fn view(&self) -> LinkView {
        LinkView {
            id: self.id,
            endpoint_socket: self.endpoint_socket,
            owner: self.owner,
            listener: self.listener,
            local: text_view(self.local),
            started: self.started,
            announced: self.announced,
            alpn: bytes_view(self.alpn),
            connect_pending: self.connect_pending,
            queued_events: self.queued_events@.map_values(|e: QuicEvent| e@),
            writes: self.writes@.map_values(|w: QueuedWrite| w@),
            finishes: self.finishes@,
            buffered_bytes: self.buffered_bytes as int,
            warned: self.warned,
        }
    }
}

/// This side sends on the stream: it is open in both directions, or this side
/// opened it. The two lowest bits of a stream number say so.
pub open spec fn sends(server: bool, stream: u64) -> bool {
    (stream / 2) % 2 == 0 || (stream % 2 == 1) == server
}

/// This side receives on the stream: it is open in both directions, or the
/// other side opened it.
pub open spec fn receives(server: bool, stream: u64) -> bool {
    (stream / 2) % 2 == 0 || (stream % 2 == 1) != server
}

/// This side sends on the stream.
pub fn is_sending_side(server: bool, stream: u64) -> (sending: bool)
    ensures
        sending == sends(server, stream),
{
    (stream / 2) % 2 == 0 || (stream % 2 == 1) == server
}

/// This side receives on the stream.
pub fn is_receiving_side(server: bool, stream: u64) -> (receiving: bool)
    ensures
        receiving == receives(server, stream),
{
    (stream / 2) % 2 == 0 || (stream % 2 == 1) != server
}

/// Bytes that a list of writes waits with.
pub open spec fn total_remaining(writes: Seq<WriteView>) -> int
    decreases writes.len(),
{
    if writes.len() == 0 {
        0
    } else {
        total_remaining(writes.drop_last()) + writes.last().remaining()
    }
}

/// A write to the stream waits.
pub open spec fn has_write(writes: Seq<WriteView>, stream: u64) -> bool {
    exists|i: int| 0 <= i < writes.len() && (#[trigger] writes[i]).stream == stream
}

/// Place of the first write to the stream, or the number of writes where
/// there is none.
pub open spec fn first_write(writes: Seq<WriteView>, stream: u64) -> int
    decreases writes.len(),
{
    if writes.len() == 0 {
        0
    } else {
        let before = first_write(writes.drop_last(), stream);
        if before < writes.len() - 1 || writes.last().stream == stream {
            before
        } else {
            before + 1
        }
    }
}

/// A finish of the stream waits.
pub open spec fn has_finish(finishes: Seq<QueuedFinish>, stream: u64) -> bool {
    exists|i: int| 0 <= i < finishes.len() && (#[trigger] finishes[i]).stream == stream
}

/// Place of the first finish of the stream, or the number of finishes where
/// there is none.
pub open spec fn first_finish(finishes: Seq<QueuedFinish>, stream: u64) -> int
    decreases finishes.len(),
{
    if finishes.len() == 0 {
        0
    } else {
        let before = first_finish(finishes.drop_last(), stream);
        if before < finishes.len() - 1 || finishes.last().stream == stream {
            before
        } else {
            before + 1
        }
    }
}

/// What `first_write` says, place by place.
pub proof fn lemma_first_write(writes: Seq<WriteView>, stream: u64)
    ensures
        0 <= first_write(writes, stream) <= writes.len(),
        first_write(writes, stream) < writes.len() ==> writes[first_write(writes, stream)].stream
            == stream,
        forall|i: int|
            0 <= i < first_write(writes, stream) ==> (#[trigger] writes[i]).stream != stream,
        has_write(writes, stream) <==> first_write(writes, stream) < writes.len(),
    decreases writes.len(),
{
    if writes.len() > 0 {
        let rest = writes.drop_last();
        lemma_first_write(rest, stream);
        assert forall|i: int| 0 <= i < first_write(writes, stream) implies (
        #[trigger] writes[i]).stream != stream by {
            if i < rest.len() {
                assert(writes[i] == rest[i]);
            }
        }
        if first_write(writes, stream) < writes.len() {
            assert(writes[first_write(writes, stream)].stream == stream);
        }
    }
}

/// What `first_finish` says, place by place.
pub proof fn lemma_first_finish(finishes: Seq<QueuedFinish>, stream: u64)
    ensures
        0 <= first_finish(finishes, stream) <= finishes.len(),
        first_finish(finishes, stream) < finishes.len() ==> finishes[first_finish(
            finishes,
            stream,
        )].stream == stream,
        forall|i: int|
            0 <= i < first_finish(finishes, stream) ==> (#[trigger] finishes[i]).stream != stream,
        has_finish(finishes, stream) <==> first_finish(finishes, stream) < finishes.len(),
    decreases finishes.len(),
{
    if finishes.len() > 0 {
        let rest = finishes.drop_last();
        lemma_first_finish(rest, stream);
        assert forall|i: int| 0 <= i < first_finish(finishes, stream) implies (
        #[trigger] finishes[i]).stream != stream by {
            if i < rest.len() {
                assert(finishes[i] == rest[i]);
            }
        }
        if first_finish(finishes, stream) < finishes.len() {
            assert(finishes[first_finish(finishes, stream)].stream == stream);
        }
    }
}

/// The place that has these properties is the first one.
proof fn lemma_first_write_is(writes: Seq<WriteView>, stream: u64, place: int)
    requires
        0 <= place <= writes.len(),
        place < writes.len() ==> writes[place].stream == stream,
        forall|i: int| 0 <= i < place ==> (#[trigger] writes[i]).stream != stream,
    ensures
        first_write(writes, stream) == place,
{
    lemma_first_write(writes, stream);
    let found = first_write(writes, stream);
    if found < place {
        assert(writes[found].stream != stream);
    }
}

/// The place that has these properties is the first one.
proof fn lemma_first_finish_is(finishes: Seq<QueuedFinish>, stream: u64, place: int)
    requires
        0 <= place <= finishes.len(),
        place < finishes.len() ==> finishes[place].stream == stream,
        forall|i: int| 0 <= i < place ==> (#[trigger] finishes[i]).stream != stream,
    ensures
        first_finish(finishes, stream) == place,
{
    lemma_first_finish(finishes, stream);
    let found = first_finish(finishes, stream);
    if found < place {
        assert(finishes[found].stream != stream);
    }
}

/// Taking a write out takes its bytes off the total.
proof fn lemma_total_removed(writes: Seq<WriteView>, place: int)
    requires
        0 <= place < writes.len(),
    ensures
        total_remaining(writes.remove(place)) == total_remaining(writes)
            - writes[place].remaining(),
    decreases writes.len(),
{
    if place == writes.len() - 1 {
        assert(writes.remove(place) =~= writes.drop_last());
    } else {
        lemma_total_removed(writes.drop_last(), place);
        assert(writes.remove(place).drop_last() =~= writes.drop_last().remove(place));
        assert(writes.remove(place).last() == writes.last());
    }
}

/// Changing a write changes the total by the difference.
proof fn lemma_total_updated(writes: Seq<WriteView>, place: int, write: WriteView)
    requires
        0 <= place < writes.len(),
    ensures
        total_remaining(writes.update(place, write)) == total_remaining(writes)
            - writes[place].remaining() + write.remaining(),
    decreases writes.len(),
{
    if place == writes.len() - 1 {
        assert(writes.update(place, write).drop_last() =~= writes.drop_last());
    } else {
        lemma_total_updated(writes.drop_last(), place, write);
        assert(writes.update(place, write).drop_last() =~= writes.drop_last().update(place, write));
        assert(writes.update(place, write).last() == writes.last());
    }
}

/// Writes that all wait with something wait with at least what one of them
/// waits with.
proof fn lemma_total_covers(writes: Seq<WriteView>, place: int)
    requires
        0 <= place < writes.len(),
        forall|i: int| 0 <= i < writes.len() ==> (#[trigger] writes[i]).remaining() > 0,
    ensures
        total_remaining(writes) >= writes[place].remaining(),
    decreases writes.len(),
{
    lemma_total_nonneg(writes.drop_last());
    if place < writes.len() - 1 {
        lemma_total_covers(writes.drop_last(), place);
    }
}

/// Writes that all wait with something do not wait with less than nothing.
proof fn lemma_total_nonneg(writes: Seq<WriteView>)
    requires
        forall|i: int| 0 <= i < writes.len() ==> (#[trigger] writes[i]).remaining() > 0,
    ensures
        total_remaining(writes) >= 0,
    decreases writes.len(),
{
    if writes.len() > 0 {
        lemma_total_nonneg(writes.drop_last());
    }
}

/// Without the first write to its stream, other streams still have their
/// writes.
proof fn lemma_removed_streams(writes: Seq<WriteView>, place: int)
    requires
        0 <= place < writes.len(),
    ensures
        forall|other: u64|
            other != writes[place].stream ==> (#[trigger] has_write(writes.remove(place), other)
                <==> has_write(writes, other)),
{
    let after = writes.remove(place);
    assert forall|other: u64| other != writes[place].stream implies (#[trigger] has_write(
        after,
        other,
    ) <==> has_write(writes, other)) by {
        if has_write(after, other) {
            let k = choose|k: int| 0 <= k < after.len() && (#[trigger] after[k]).stream == other;
            let m = if k < place {
                k
            } else {
                k + 1
            };
            assert(writes[m].stream == other);
        }
        if has_write(writes, other) {
            let k = choose|k: int| 0 <= k < writes.len() && (#[trigger] writes[k]).stream == other;
            let m = if k < place {
                k
            } else {
                k - 1
            };
            assert(after[m].stream == other);
        }
    }
}

/// A write that changes but stays with its stream leaves every stream its
/// writes.
proof fn lemma_updated_streams(writes: Seq<WriteView>, place: int, write: WriteView)
    requires
        0 <= place < writes.len(),
        write.stream == writes[place].stream,
    ensures
        forall|other: u64| #[trigger]
            has_write(writes.update(place, write), other) <==> has_write(writes, other),
{
    let after = writes.update(place, write);
    assert forall|other: u64| #[trigger] has_write(after, other) <==> has_write(writes, other) by {
        if has_write(after, other) {
            let k = choose|k: int| 0 <= k < after.len() && (#[trigger] after[k]).stream == other;
            assert(writes[k].stream == other);
        }
        if has_write(writes, other) {
            let k = choose|k: int| 0 <= k < writes.len() && (#[trigger] writes[k]).stream == other;
            assert(after[k].stream == other);
        }
    }
}

impl LinkView {
    /// The bookkeeping fits together: what is counted as buffered is what the
    /// writes wait with, no write waits with nothing, a finish waits only
    /// behind a write to its stream, and no stream has two finishes.
    pub open spec fn wf(self) -> bool {
        &&& self.writes_ok()
        &&& forall|i: int|
            0 <= i < self.finishes.len() ==> has_write(
                self.writes,
                (#[trigger] self.finishes[i]).stream,
            )
        &&& forall|i: int, j: int|
            0 <= i < j < self.finishes.len() ==> (#[trigger] self.finishes[i]).stream != (
            #[trigger] self.finishes[j]).stream
    }

    /// The part of the bookkeeping that speaks of writes alone.
    pub open spec fn writes_ok(self) -> bool {
        &&& forall|i: int|
            0 <= i < self.writes.len() ==> (#[trigger] self.writes[i]).offset >= 0
                && self.writes[i].remaining() > 0 && self.admits(self.writes[i].stream)
        &&& self.buffered_bytes == total_remaining(self.writes)
    }

    /// The connection was made by the other side.
    pub open spec fn is_server(self) -> bool {
        self.listener is Some
    }

    /// Bytes can be sent on the stream.
    pub open spec fn admits(self, stream: u64) -> bool {
        stream < VARINT_BOUND && sends(self.is_server(), stream)
    }

    /// Only writes, finishes and the count of buffered bytes matter.
    pub proof fn lemma_same_books(self, other: LinkView)
        requires
            self.wf(),
            other.writes == self.writes,
            other.finishes == self.finishes,
            other.buffered_bytes == self.buffered_bytes,
            other.listener == self.listener,
        ensures
            other.wf(),
    {
        assert forall|i: int| 0 <= i < other.finishes.len() implies has_write(
            other.writes,
            (#[trigger] other.finishes[i]).stream,
        ) by {
            assert(has_write(self.writes, self.finishes[i].stream));
        }
        assert forall|i: int, j: int| 0 <= i < j < other.finishes.len() implies (
        #[trigger] other.finishes[i]).stream != (#[trigger] other.finishes[j]).stream by {
            assert(self.finishes[i].stream != self.finishes[j].stream);
        }
    }

    /// One more finish behind a write to its stream.
    pub proof fn lemma_more_finishes(self, other: LinkView, finish: QueuedFinish)
        requires
            self.wf(),
            has_write(self.writes, finish.stream),
            !has_finish(self.finishes, finish.stream),
            other.writes == self.writes,
            other.finishes == self.finishes.push(finish),
            other.buffered_bytes == self.buffered_bytes,
            other.listener == self.listener,
        ensures
            other.wf(),
    {
        assert forall|i: int| 0 <= i < other.finishes.len() implies has_write(
            other.writes,
            (#[trigger] other.finishes[i]).stream,
        ) by {
            if i < self.finishes.len() {
                assert(has_write(self.writes, self.finishes[i].stream));
            }
        }
        assert forall|i: int, j: int| 0 <= i < j < other.finishes.len() implies (
        #[trigger] other.finishes[i]).stream != (#[trigger] other.finishes[j]).stream by {
            if j < self.finishes.len() {
                assert(self.finishes[i].stream != self.finishes[j].stream);
            } else {
                assert(self.finishes[i].stream != finish.stream);
            }
        }
    }

    /// Tells the owner, or keeps the event until the connection is started.
    pub open spec fn tell(self, output: OutputView, event: EventView) -> (LinkView, OutputView) {
        if self.started {
            (self, output.event(self.owner, event))
        } else {
            (LinkView { queued_events: self.queued_events.push(event), ..self }, output)
        }
    }

    /// The description of the connection.
    pub open spec fn info(self, proto: ProtoInfoView) -> InfoView {
        InfoView {
            id: self.id,
            owner: self.owner,
            listener: self.listener,
            state: if proto.closed {
                "closed"@
            } else if proto.handshaking {
                "handshaking"@
            } else {
                "connected"@
            },
            started: self.started,
            local: self.local,
            peer: proto.peer,
            alpn: self.alpn,
            rtt_micros: if proto.rtt_nanos / 1000 > u64::MAX {
                u64::MAX
            } else {
                (proto.rtt_nanos / 1000) as u64
            },
            congestion_window: proto.congestion_window,
            open_send_streams: proto.send_streams,
            buffered_bytes: self.buffered_bytes,
        }
    }

    /// The connection is up: whoever asked for it is answered and the owner
    /// is told, started or not.
    pub open spec fn connected(self, output: OutputView, peer: Seq<char>) -> (
        LinkView,
        OutputView,
    ) {
        (
            LinkView { announced: true, connect_pending: None, ..self },
            output.reply_to(self.connect_pending, AnswerView::Connection(self.id)).event(
                self.owner,
                EventView::Connected {
                    id: self.id,
                    listener: self.listener,
                    peer,
                    alpn: self.alpn,
                },
            ),
        )
    }

    /// Answers every waiting write and finish with a failure.
    pub open spec fn fail_pending(self, output: OutputView, reason: Seq<char>) -> (
        LinkView,
        OutputView,
    ) {
        (
            LinkView {
                writes: Seq::empty(),
                finishes: Seq::empty(),
                buffered_bytes: 0,
                warned: false,
                ..self
            },
            refuse_finishes(refuse_writes(output, self.writes, reason), self.finishes, reason),
        )
    }

    /// The connection is lost: whoever asked for it is answered, the owner is
    /// told if it knew of it, and everything that waits is refused. The
    /// application's own close is told apart from all other ends.
    pub open spec fn lost(
        self,
        output: OutputView,
        reason: Seq<char>,
        application: Option<(u64, Seq<u8>)>,
    ) -> (LinkView, OutputView) {
        let answered = output.reply_to(self.connect_pending, AnswerView::Failed(reason));
        let event = match application {
            Some((code, text)) => EventView::Close {
                id: self.id,
                error_code: Some(code),
                reason: text,
            },
            None => EventView::Error { id: self.id, reason },
        };
        let told = if self.announced {
            answered.event(self.owner, event)
        } else {
            answered
        };
        LinkView { connect_pending: None, ..self }.fail_pending(told, "QUIC 连接已关闭"@)
    }

    /// What reading from a stream gave.
    pub open spec fn read(self, output: OutputView, stream: u64, outcome: ReadOutcomeView) -> (
        LinkView,
        OutputView,
    ) {
        let stream = QuicStreamId(stream);
        match outcome {
            ReadOutcomeView::Data(data) => self.tell(
                output,
                EventView::StreamData { id: self.id, stream, data },
            ),
            ReadOutcomeView::End => self.tell(
                output,
                EventView::ReceiveFinished { id: self.id, stream },
            ),
            ReadOutcomeView::Reset(error_code) => self.tell(
                output,
                EventView::StreamReset { id: self.id, stream, error_code },
            ),
            ReadOutcomeView::Blocked => (self, output),
            ReadOutcomeView::Closed => (self, output),
        }
    }

    /// A write of which the stream took the first `written` bytes: it is done,
    /// or the rest waits, and at the high water mark the owner is warned once.
    pub open spec fn wrote_first(
        self,
        output: OutputView,
        stream: u64,
        data: Seq<u8>,
        written: int,
        pending: Option<Pending>,
        high_water: int,
    ) -> (LinkView, OutputView) {
        if written == data.len() {
            (self, output.reply_to(pending, AnswerView::Done))
        } else {
            let buffered = self.buffered_bytes + data.len() - written;
            let queued = LinkView {
                writes: self.writes.push(WriteView { stream, data, offset: written, pending }),
                buffered_bytes: buffered,
                ..self
            };
            if buffered >= high_water && !self.warned {
                LinkView { warned: true, ..queued }.tell(
                    output,
                    EventView::Warning { id: self.id, buffered_bytes: buffered },
                )
            } else {
                (queued, output)
            }
        }
    }

    /// What became of offering the first waiting write of a stream again.
    pub open spec fn wrote_again(
        self,
        output: OutputView,
        stream: u64,
        outcome: WriteOutcomeView,
    ) -> (LinkView, OutputView) {
        let place = first_write(self.writes, stream);
        let write = self.writes[place];
        match outcome {
            WriteOutcomeView::Written(count) => if count == write.remaining() {
                (
                    LinkView {
                        writes: self.writes.remove(place),
                        buffered_bytes: self.buffered_bytes - count,
                        ..self
                    },
                    output.reply_to(write.pending, AnswerView::Done),
                )
            } else {
                (
                    LinkView {
                        writes: self.writes.update(
                            place,
                            WriteView { offset: write.offset + count, ..write },
                        ),
                        buffered_bytes: self.buffered_bytes - count,
                        ..self
                    },
                    output,
                )
            },
            WriteOutcomeView::Blocked => (self, output),
            WriteOutcomeView::Failed(reason) => (
                LinkView {
                    writes: self.writes.remove(place),
                    buffered_bytes: self.buffered_bytes - write.remaining(),
                    ..self
                },
                output.reply_to(write.pending, AnswerView::Failed(reason)),
            ),
        }
    }

    /// A finish that waited was carried out: its caller is answered.
    pub open spec fn finished(
        self,
        output: OutputView,
        stream: u64,
        outcome: CallOutcomeView,
    ) -> (LinkView, OutputView) {
        let place = first_finish(self.finishes, stream);
        (
            LinkView { finishes: self.finishes.remove(place), ..self },
            output.reply(self.finishes[place].pending, call_answer(outcome)),
        )
    }

    /// Down at the low water mark the next warning is due again.
    pub open spec fn relaxed(self, low_water: int) -> LinkView {
        LinkView { warned: self.warned && self.buffered_bytes > low_water, ..self }
    }
}

/// An application's close as a mathematical value: its code and its reason.
pub open spec fn close_view(application: Option<(u64, Vec<u8>)>) -> Option<(u64, Seq<u8>)> {
    match application {
        None => None,
        Some((code, text)) => Some((code, text@)),
    }
}

/// The answer that an outcome gives.
pub open spec fn call_answer(outcome: CallOutcomeView) -> AnswerView {
    match outcome {
        CallOutcomeView::Done => AnswerView::Done,
        CallOutcomeView::Failed(reason) => AnswerView::Failed(reason),
    }
}

/// The output with a failure for whoever waits for one of the writes.
pub open spec fn refuse_writes(
    output: OutputView,
    writes: Seq<WriteView>,
    reason: Seq<char>,
) -> OutputView
    decreases writes.len(),
{
    if writes.len() == 0 {
        output
    } else {
        refuse_writes(output, writes.drop_last(), reason).reply_to(
            writes.last().pending,
            AnswerView::Failed(reason),
        )
    }
}

/// The output with a failure for whoever waits for one of the finishes.
pub open spec fn refuse_finishes(
    output: OutputView,
    finishes: Seq<QueuedFinish>,
    reason: Seq<char>,
) -> OutputView
    decreases finishes.len(),
{
    if finishes.len() == 0 {
        output
    } else {
        refuse_finishes(output, finishes.drop_last(), reason).reply(
            finishes.last().pending,
            AnswerView::Failed(reason),
        )
    }
}

/// The answer that an outcome gives.
pub fn answer_of(outcome: CallOutcome) -> (answer: Answer)
    ensures
        answer@ == call_answer(outcome@),
{
    match outcome {
        CallOutcome::Done => Answer::Done,
        CallOutcome::Failed(reason) => Answer::Failed(reason),
    }
}

impl Link {
    /// A connection about which nothing has happened yet.
    pub fn new(
        id: QuicConnectionId,
        endpoint_socket: u32,
        owner: u32,
        listener: Option<QuicListenerId>,
        local: Option<String>,
        started: bool,
        connect_pending: Option<Pending>,
    ) -> (link: Link)
        ensures
            link@ == (LinkView {
                id,
                endpoint_socket,
                owner,
                listener,
                local: text_view(local),
                started,
                announced: false,
                alpn: None,
                connect_pending,
                queued_events: Seq::empty(),
                writes: Seq::empty(),
                finishes: Seq::empty(),
                buffered_bytes: 0,
                warned: false,
            }),
            link@.wf(),
    {
        let link = Link {
            id,
            endpoint_socket,
            owner,
            listener,
            local,
            started,
            announced: false,
            alpn: None,
            connect_pending,
            queued_events: Vec::new(),
            writes: Vec::new(),
            finishes: Vec::new(),
            buffered_bytes: 0,
            warned: false,
        };
        assert(link@.queued_events =~= Seq::empty());
        assert(link@.writes =~= Seq::empty());
        link
    }

    /// Tells the owner, or keeps the event until the connection is started.
    pub fn queue_event(&mut self, event: QuicEvent, output: &mut DriveOutput)
        ensures
            (final(self)@, final(output)@) == old(self)@.tell(old(output)@, event@),
            old(self)@.wf() ==> final(self)@.wf(),
    {
        if self.started {
            output.event(self.owner, event);
        } else {
            self.queued_events.push(event);
            assert(self@ =~= old(self)@.tell(old(output)@, event@).0);
        }
    }

    /// The description of the connection.
    pub fn info(&self, proto: ProtoInfo) -> (info: QuicInfo)
        ensures
            info@ == self@.info(proto@),
    {
        QuicInfo {
            id: self.id,
            owner: self.owner,
            listener: self.listener,
            state: if proto.closed {
                "closed"
            } else if proto.handshaking {
                "handshaking"
            } else {
                "connected"
            },
            started: self.started,
            local: clone_text(&self.local),
            peer: proto.peer,
            alpn: clone_bytes(&self.alpn),
            rtt_micros: QuicInfo::rtt_micros(proto.rtt_nanos),
            congestion_window: proto.congestion_window,
            open_send_streams: proto.send_streams,
            buffered_bytes: self.buffered_bytes,
        }
    }

    /// The connection is up.
    pub fn connected(&mut self, peer: String, output: &mut DriveOutput)
        ensures
            (final(self)@, final(output)@) == old(self)@.connected(old(output)@, peer@),
            old(self)@.wf() ==> final(self)@.wf(),
    {
        self.announced = true;
        let pending = self.connect_pending.take();
        output.reply_to(pending, Answer::Connection(self.id));
        output.event(
            self.owner,
            QuicEvent::Connected {
                id: self.id,
                listener: self.listener,
                peer,
                alpn: clone_bytes(&self.alpn),
            },
        );
        proof {
            if old(self)@.wf() {
                old(self)@.lemma_same_books(self@);
            }
        }
    }

    /// Answers every waiting write and finish with a failure.
    pub fn fail_pending_writes(&mut self, reason: &str, output: &mut DriveOutput)
        ensures
            (final(self)@, final(output)@) == old(self)@.fail_pending(old(output)@, reason@),
            final(self)@.wf(),
    {
        let ghost writes = self@.writes;
        let ghost finishes = self@.finishes;
        let mut i: usize = 0;
        assert(writes.take(0) =~= Seq::empty());
        while i < self.writes.len()
            invariant
                i <= self.writes@.len(),
                *self == *old(self),
                writes == self@.writes,
                output@ == refuse_writes(old(output)@, writes.take(i as int), reason@),
            decreases self.writes@.len() - i,
        {
            output.reply_to(self.writes[i].pending, Answer::Failed(reason.to_owned()));
            assert(writes.take(i + 1).drop_last() =~= writes.take(i as int));
            i = i + 1;
        }
        assert(writes.take(i as int) =~= writes);
        let ghost written = output@;
        let mut j: usize = 0;
        assert(finishes.take(0) =~= Seq::empty());
        while j < self.finishes.len()
            invariant
                j <= self.finishes@.len(),
                *self == *old(self),
                finishes == self@.finishes,
                output@ == refuse_finishes(written, finishes.take(j as int), reason@),
            decreases self.finishes@.len() - j,
        {
            output.reply(self.finishes[j].pending, Answer::Failed(reason.to_owned()));
            assert(finishes.take(j + 1).drop_last() =~= finishes.take(j as int));
            j = j + 1;
        }
        assert(finishes.take(j as int) =~= finishes);
        self.writes.clear();
        self.finishes.clear();
        self.buffered_bytes = 0;
        self.warned = false;
        assert(self@.writes =~= Seq::empty());
        assert(self@.finishes =~= Seq::empty());
    }

    /// The connection is lost.
    pub fn lost(
        &mut self,
        reason: String,
        application: Option<(u64, Vec<u8>)>,
        output: &mut DriveOutput,
    )
        ensures
            (final(self)@, final(output)@) == old(self)@.lost(
                old(output)@,
                reason@,
                close_view(application),
            ),
            final(self)@.wf(),
    {
        let pending = self.connect_pending.take();
        output.reply_to(pending, Answer::Failed(reason.clone()));
        if self.announced {
            let event = match application {
                Some((code, text)) => QuicEvent::Close {
                    id: self.id,
                    error_code: Some(code),
                    reason: text,
                },
                None => QuicEvent::Error { id: self.id, reason },
            };
            output.event(self.owner, event);
        }
        self.fail_pending_writes("QUIC 连接已关闭", output);
    }

    /// What reading from a stream gave; `true` where reading can go on.
    pub fn read(&mut self, stream: u64, outcome: ReadOutcome, output: &mut DriveOutput) -> (more:
        bool)
        ensures
            (final(self)@, final(output)@) == old(self)@.read(old(output)@, stream, outcome@),
            more == (outcome is Data),
            old(self)@.wf() ==> final(self)@.wf(),
    {
        let id = self.id;
        let stream = QuicStreamId(stream);
        match outcome {
            ReadOutcome::Data(data) => {
                self.queue_event(QuicEvent::StreamData { id, stream, data }, output);
                true
            },
            ReadOutcome::End => {
                self.queue_event(QuicEvent::ReceiveFinished { id, stream }, output);
                false
            },
            ReadOutcome::Reset(error_code) => {
                self.queue_event(QuicEvent::StreamReset { id, stream, error_code }, output);
                false
            },
            ReadOutcome::Blocked => false,
            ReadOutcome::Closed => false,
        }
    }

    /// Place of the first waiting write to a stream.
    pub fn find_write(&self, stream: u64) -> (place: Option<usize>)
        ensures
            match place {
                Some(place) => place == first_write(self@.writes, stream) && place
                    < self@.writes.len() && self.writes@[place as int].stream == stream
                    && has_write(self@.writes, stream),
                None => first_write(self@.writes, stream) == self@.writes.len() && !has_write(
                    self@.writes,
                    stream,
                ),
            },
    {
        let mut i: usize = 0;
        while i < self.writes.len()
            invariant
                i <= self.writes@.len(),
                forall|j: int| 0 <= j < i ==> (#[trigger] self@.writes[j]).stream != stream,
            decreases self.writes@.len() - i,
        {
            assert(self@.writes[i as int] == self.writes@[i as int]@);
            if self.writes[i].stream == stream {
                proof {
                    lemma_first_write_is(self@.writes, stream, i as int);
                    lemma_first_write(self@.writes, stream);
                }
                return Some(i);
            }
            i = i + 1;
        }
        proof {
            lemma_first_write_is(self@.writes, stream, i as int);
            lemma_first_write(self@.writes, stream);
        }
        None
    }

    /// Place of the waiting finish of a stream.
    pub fn find_finish(&self, stream: u64) -> (place: Option<usize>)
        ensures
            match place {
                Some(place) => place == first_finish(self@.finishes, stream) && place
                    < self@.finishes.len() && has_finish(self@.finishes, stream),
                None => first_finish(self@.finishes, stream) == self@.finishes.len()
                    && !has_finish(self@.finishes, stream),
            },
    {
        let mut i: usize = 0;
        while i < self.finishes.len()
            invariant
                i <= self.finishes@.len(),
                forall|j: int| 0 <= j < i ==> (#[trigger] self@.finishes[j]).stream != stream,
            decreases self.finishes@.len() - i,
        {
            if self.finishes[i].stream == stream {
                proof {
                    lemma_first_finish_is(self@.finishes, stream, i as int);
                    lemma_first_finish(self@.finishes, stream);
                }
                return Some(i);
            }
            i = i + 1;
        }
        proof {
            lemma_first_finish_is(self@.finishes, stream, i as int);
            lemma_first_finish(self@.finishes, stream);
        }
        None
    }

    /// A write of which the stream took the first `written` bytes.
    pub fn wrote_first(
        &mut self,
        stream: u64,
        data: Vec<u8>,
        written: usize,
        pending: Option<Pending>,
        high_water: usize,
        output: &mut DriveOutput,
    )
        requires
            old(self)@.wf(),
            old(self)@.admits(stream),
            written <= data@.len(),
            old(self).buffered_bytes + data@.len() <= usize::MAX,
        ensures
            (final(self)@, final(output)@) == old(self)@.wrote_first(
                old(output)@,
                stream,
                data@,
                written as int,
                pending,
                high_water as int,
            ),
            final(self)@.wf(),
    {
        if written == data.len() {
            output.reply_to(pending, Answer::Done);
            return;
        }
        self.buffered_bytes = self.buffered_bytes + (data.len() - written);
        let ghost write = WriteView { stream, data: data@, offset: written as int, pending };
        self.writes.push(QueuedWrite { stream, data, offset: written, pending });
        proof {
            assert(self@.writes =~= old(self)@.writes.push(write));
            assert(self@.writes.drop_last() =~= old(self)@.writes);
            assert forall|i: int| 0 <= i < self@.finishes.len() implies has_write(
                self@.writes,
                (#[trigger] self@.finishes[i]).stream,
            ) by {
                assert(has_write(old(self)@.writes, old(self)@.finishes[i].stream));
                let k = choose|k: int|
                    0 <= k < old(self)@.writes.len() && (#[trigger] old(self)@.writes[k]).stream
                        == self@.finishes[i].stream;
                assert(self@.writes[k].stream == self@.finishes[i].stream);
            }
        }
        let ghost queued = *self;
        if self.buffered_bytes >= high_water && !self.warned {
            self.warned = true;
            let buffered_bytes: usize = self.buffered_bytes;
            let event = QuicEvent::Warning { id: self.id, buffered_bytes };
            self.queue_event(event, output);
        }
    }

    /// What became of offering the first waiting write of a stream again;
    /// `true` where the stream may take more.
    pub fn wrote_again(
        &mut self,
        stream: u64,
        outcome: WriteOutcome,
        output: &mut DriveOutput,
    ) -> (more: bool)
        requires
            old(self)@.wf(),
            has_write(old(self)@.writes, stream),
            outcome matches WriteOutcome::Written(count) ==> count <= old(self)@.writes[first_write(
                old(self)@.writes,
                stream,
            )].remaining(),
        ensures
            (final(self)@, final(output)@) == old(self)@.wrote_again(
                old(output)@,
                stream,
                outcome@,
            ),
            final(self)@.writes_ok(),
            final(self)@.listener == old(self)@.listener,
            final(self)@.finishes == old(self)@.finishes,
            more == (final(self)@.writes.len() < old(self)@.writes.len()),
            forall|other: u64|
                other != stream ==> (has_write(final(self)@.writes, other) <==> has_write(
                    old(self)@.writes,
                    other,
                )),
            !more ==> has_write(final(self)@.writes, stream),
    {
        let ghost before = self@;
        let place = match self.find_write(stream) {
            Some(place) => place,
            None => {
                assert(false);
                return false;
            },
        };
        let ghost write = before.writes[place as int];
        proof {
            assert(write == self.writes@[place as int]@);
            lemma_total_covers(before.writes, place as int);
            lemma_total_removed(before.writes, place as int);
            lemma_removed_streams(before.writes, place as int);
        }
        match outcome {
            WriteOutcome::Written(count) => {
                self.buffered_bytes = self.buffered_bytes - count;
                assert(self.writes@[place as int]@ == write);
                let left: usize = self.writes[place].data.len() - self.writes[place].offset;
                if count == left {
                    let write = self.writes.remove(place);
                    output.reply_to(write.pending, Answer::Done);
                    assert(self@.writes =~= before.writes.remove(place as int));
                    true
                } else {
                    let offset: usize = self.writes[place].offset + count;
                    self.writes[place].offset = offset;
                    proof {
                        let moved = WriteView { offset: write.offset + count, ..write };
                        assert(self@.writes =~= before.writes.update(place as int, moved));
                        lemma_total_updated(before.writes, place as int, moved);
                        lemma_updated_streams(before.writes, place as int, moved);
                        assert(self@.writes[place as int].stream == stream);
                    }
                    false
                }
            },
            WriteOutcome::Blocked => false,
            WriteOutcome::Failed(reason) => {
                let write = self.writes.remove(place);
                self.buffered_bytes = self.buffered_bytes - (write.data.len() - write.offset);
                output.reply_to(write.pending, Answer::Failed(reason));
                assert(self@.writes =~= before.writes.remove(place as int));
                true
            },
        }
    }

    /// A finish that waited was carried out.
    pub fn finished(&mut self, stream: u64, outcome: CallOutcome, output: &mut DriveOutput)
        requires
            has_finish(old(self)@.finishes, stream),
        ensures
            (final(self)@, final(output)@) == old(self)@.finished(old(output)@, stream, outcome@),
            old(self)@.writes_ok() ==> final(self)@.writes_ok(),
    {
        match self.find_finish(stream) {
            Some(place) => {
                let finish = self.finishes.remove(place);
                output.reply(finish.pending, answer_of(outcome));
                assert(self@.finishes =~= old(self)@.finishes.remove(place as int));
            },
            None => {
                assert(false);
            },
        }
    }

    /// Down at the low water mark the next warning is due again.
    pub fn relax(&mut self, low_water: usize)
        ensures
            final(self)@ == old(self)@.relaxed(low_water as int),
            old(self)@.wf() ==> final(self)@.wf(),
    {
        if self.buffered_bytes <= low_water {
            self.warned = false;
        }
    }

    /// The streams that writes wait for, each once, in the order in which
    /// they first wait.
    pub fn waiting_streams(&self) -> (streams: Vec<u64>)
        ensures
            forall|stream: u64| #[trigger]
                streams@.contains(stream) <==> has_write(self@.writes, stream),
            streams@.no_duplicates(),
    {
        let mut streams: Vec<u64> = Vec::new();
        let mut i: usize = 0;
        while i < self.writes.len()
            invariant
                i <= self.writes@.len(),
                forall|stream: u64| #[trigger]
                    streams@.contains(stream) <==> has_write(self@.writes.take(i as int), stream),
                streams@.no_duplicates(),
            decreases self.writes@.len() - i,
        {
            let stream: u64 = self.writes[i].stream;
            let mut known = false;
            let mut j: usize = 0;
            while j < streams.len()
                invariant
                    j <= streams@.len(),
                    known == streams@.take(j as int).contains(stream),
                decreases streams@.len() - j,
            {
                let ghost earlier = streams@.take(j as int);
                if streams[j] == stream {
                    known = true;
                }
                proof {
                    let later = streams@.take(j + 1);
                    assert(later =~= earlier.push(streams@[j as int]));
                    if earlier.contains(stream) {
                        let k = choose|k: int| 0 <= k < earlier.len() && earlier[k] == stream;
                        assert(later[k] == stream);
                    }
                    if streams@[j as int] == stream {
                        assert(later[j as int] == stream);
                    }
                }
                j = j + 1;
            }
            assert(streams@.take(j as int) =~= streams@);
            let ghost before = streams@;
            if !known {
                streams.push(stream);
            }
            proof {
                let earlier = self@.writes.take(i as int);
                let later = self@.writes.take(i + 1);
                assert(later =~= earlier.push(self@.writes[i as int]));
                assert forall|other: u64| #[trigger] streams@.contains(other) <==> has_write(
                    later,
                    other,
                ) by {
                    assert(before.contains(other) <==> has_write(earlier, other));
                    if has_write(earlier, other) {
                        let k = choose|k: int|
                            0 <= k < earlier.len() && (#[trigger] earlier[k]).stream == other;
                        assert(later[k].stream == other);
                        let m = choose|m: int| 0 <= m < before.len() && before[m] == other;
                        assert(streams@[m] == other);
                    }
                    if other == stream {
                        assert(later[i as int].stream == other);
                        if !known {
                            assert(streams@[before.len() as int] == other);
                        }
                    }
                    if has_write(later, other) && other != stream {
                        let k = choose|k: int|
                            0 <= k < later.len() && (#[trigger] later[k]).stream == other;
                        assert(earlier[k].stream == other);
                    }
                    if streams@.contains(other) && other != stream {
                        let m = choose|m: int| 0 <= m < streams@.len() && streams@[m] == other;
                        assert(before[m] == other);
                    }
                }
            }
            i = i + 1;
        }
        assert(self@.writes.take(i as int) =~= self@.writes);
        streams
    }
}

} // verus!
