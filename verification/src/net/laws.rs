//! What holds of the socket layer as a whole: which bytes leave in which
//! order, who hears what, and when a socket goes.

use crate::net::command::Command;
use crate::net::config::NetConfig;
use crate::net::event::SocketId;
use crate::net::request::{Purpose, Task};
use crate::net::service::{FlushStep, Next, ReadResult, UdpResult, WriteResult, MAX_UDP_PACKAGE};
use crate::net::socket::{Interest, Kind, Pending, Registration, State};
#[allow(unused_imports)]
use crate::net::{
    buffer::{leaving, ChunkView, QueueView, ReadSizer},
    command::AnswerView,
    event::{SocketEventView, SocketInfoView},
    output::NetOutputView,
    request::send_obstacle,
    service::{lemma_found, FarewellView, NetStep},
    socket::{next_id, SocketView, SocketsView},
    traffic::{after_datagram, after_read, after_write},
};
use vstd::prelude::*;

verus! {

/// The bytes of chunks, one after the other.
pub open spec fn bytes_of(chunks: Seq<ChunkView>) -> Seq<u8>
    decreases chunks.len(),
{
    if chunks.len() == 0 {
        Seq::empty()
    } else {
        chunks[0].rest + bytes_of(chunks.drop_first())
    }
}

/// The bytes that wait, in the order in which they will leave.
pub open spec fn outgoing(queue: QueueView) -> Seq<u8> {
    bytes_of(queue.high) + bytes_of(queue.low)
}

proof fn lemma_bytes_pushed(chunks: Seq<ChunkView>, chunk: ChunkView)
    ensures
        bytes_of(chunks.push(chunk)) == bytes_of(chunks) + chunk.rest,
    decreases chunks.len(),
{
    reveal_with_fuel(bytes_of, 2);
    let more = chunks.push(chunk);
    if chunks.len() == 0 {
        assert(more.drop_first() =~= Seq::<ChunkView>::empty());
        assert(bytes_of(more) =~= bytes_of(chunks) + chunk.rest);
    } else {
        assert(more.drop_first() =~= chunks.drop_first().push(chunk));
        lemma_bytes_pushed(chunks.drop_first(), chunk);
        assert(bytes_of(more) =~= bytes_of(chunks) + chunk.rest);
    }
}

/// Bytes leave in the order in which they were queued: those that are not urgent behind all that
/// wait, urgent ones behind those that were urgent before them. Nothing is lost, and what makes
/// up a datagram stays together.
pub proof fn law_bytes_are_queued_in_order(
    queue: QueueView,
    chunk: ChunkView,
    high: bool,
    threshold: usize,
)
    ensures
        !high ==> outgoing(queue.push(chunk, high, threshold).0) == outgoing(queue) + chunk.rest,
        !high ==> leaving(queue.push(chunk, high, threshold).0) == leaving(queue).push(chunk),
        high ==> outgoing(queue.push(chunk, high, threshold).0) == bytes_of(queue.high)
            + chunk.rest + bytes_of(queue.low),
        high ==> leaving(queue.push(chunk, high, threshold).0) == queue.high.push(chunk)
            + queue.low,
{
    lemma_bytes_pushed(queue.high, chunk);
    lemma_bytes_pushed(queue.low, chunk);
    let after = queue.push(chunk, high, threshold).0;
    if high {
        assert(outgoing(after) =~= bytes_of(queue.high) + chunk.rest + bytes_of(queue.low));
    } else {
        assert(outgoing(after) =~= outgoing(queue) + chunk.rest);
        assert(leaving(after) =~= leaving(queue).push(chunk));
    }
}

/// Bringing the next chunk to the front does not change which bytes leave in which order, and the
/// chunk in front is the one that leaves first.
pub proof fn law_the_first_chunk_is_offered(queue: QueueView)
    requires
        !queue.is_empty(),
    ensures
        outgoing(queue.raised()) == outgoing(queue),
        queue.raised().high.len() > 0,
        queue.raised().high[0] == leaving(queue)[0],
{
    reveal_with_fuel(bytes_of, 2);
    if queue.high.len() == 0 {
        let first = seq![queue.low[0]];
        assert(first.drop_first() =~= Seq::<ChunkView>::empty());
        assert(bytes_of(first) =~= queue.low[0].rest);
        assert(bytes_of(queue.high) =~= Seq::<u8>::empty());
        assert(outgoing(queue.raised()) =~= outgoing(queue));
    }
}

/// Writing takes the written bytes off the front and leaves all others where they are; a datagram
/// of which a part is written keeps its destination.
pub proof fn law_a_write_takes_the_first_bytes(queue: QueueView, written: int)
    requires
        queue.high.len() > 0,
        0 <= written <= queue.high[0].rest.len(),
    ensures
        outgoing(queue) == queue.high[0].rest.take(written) + outgoing(queue.consumed(written)),
        written < queue.high[0].rest.len() ==> queue.consumed(written).high.len() > 0
            && queue.consumed(written).high[0].to == queue.high[0].to,
        written == queue.high[0].rest.len() ==> leaving(queue.consumed(written)) == leaving(
            queue,
        ).drop_first(),
{
    let front = queue.high[0];
    let after = queue.consumed(written);
    assert(front.rest =~= front.rest.take(written) + front.rest.skip(written));
    if written < front.rest.len() {
        assert(after.high.drop_first() =~= queue.high.drop_first());
        assert(outgoing(queue) =~= front.rest.take(written) + outgoing(after));
    } else {
        assert(front.rest.take(written) =~= front.rest);
        assert(outgoing(queue) =~= front.rest.take(written) + outgoing(after));
        assert(leaving(after) =~= leaving(queue).drop_first());
    }
}

/// The owner of a queue is warned no sooner than at the threshold, with the bytes that wait then,
/// and a warned owner is not warned again before twice as many wait.
pub proof fn law_warnings_come_at_doublings(
    queue: QueueView,
    chunk: ChunkView,
    high: bool,
    threshold: usize,
)
    requires
        threshold > 0,
        queue.size() + chunk.rest.len() <= usize::MAX,
    ensures
        ({
            let (after, warning) = queue.push(chunk, high, threshold);
            let size = queue.size() + chunk.rest.len();
            &&& warning is Some <==> size >= threshold && size >= queue.warn_at
            &&& warning matches Some(kilobytes) ==> kilobytes * 1024 <= size < (kilobytes + 1)
                * 1024
            &&& warning is Some && queue.warn_at == 0 && threshold <= usize::MAX / 2
                ==> after.warn_at == threshold + threshold
            &&& warning is Some && 0 < queue.warn_at <= usize::MAX / 2 ==> after.warn_at
                == queue.warn_at + queue.warn_at
            &&& warning is None ==> after.warn_at == queue.warn_at
        }),
{
    let size = queue.size() + chunk.rest.len();
    lemma_sizes(queue);
    assert((size / 1024) * 1024 <= size < (size / 1024 + 1) * 1024) by (nonlinear_arith)
        requires
            size >= 0,
    ;
}

proof fn lemma_sizes(queue: QueueView)
    ensures
        queue.size() >= 0,
{
    lemma_total(queue.high);
    lemma_total(queue.low);
}

proof fn lemma_total(chunks: Seq<ChunkView>)
    ensures
        crate::net::buffer::total(chunks) == bytes_of(chunks).len(),
    decreases chunks.len(),
{
    if chunks.len() > 0 {
        lemma_total(chunks.drop_last());
        lemma_bytes_pushed(chunks.drop_last(), chunks.last());
        assert(chunks.drop_last().push(chunks.last()) =~= chunks);
    }
}

/// What is counted as waiting is the number of bytes that wait.
pub proof fn law_the_count_is_that_of_the_bytes(queue: QueueView)
    ensures
        queue.size() == outgoing(queue).len(),
{
    lemma_total(queue.high);
    lemma_total(queue.low);
}

/// A socket that is there is found changed after a change, and no other socket is touched.
proof fn lemma_with(sockets: SocketsView, socket: SocketView)
    requires
        sockets.wf(),
        sockets.get(socket.id) is Some,
        socket.slot == sockets.slot_of(socket.id),
    ensures
        sockets.with(socket).get(socket.id) == Some(socket),
        sockets.with(socket).wf(),
        forall|other: SocketId|
            other != socket.id ==> #[trigger] sockets.with(socket).get(other) == sockets.get(
                other,
            ),
{
    lemma_found(sockets, socket.id);
    let after = sockets.with(socket);
    assert forall|other: SocketId| other != socket.id implies #[trigger] after.get(other)
        == sockets.get(other) by {
        if sockets.slot_of(other) == sockets.slot_of(socket.id) {
            assert(sockets.slots[sockets.slot_of(socket.id)]->0.id == socket.id);
        } else {
            lemma_slot(sockets, other);
        }
    }
}

proof fn lemma_slot(sockets: SocketsView, id: SocketId)
    requires
        sockets.slots.len() > 0,
    ensures
        0 <= sockets.slot_of(id) < sockets.slots.len(),
{
    assert(0 <= id.0 as int % sockets.slots.len() as int) by (nonlinear_arith)
        requires
            sockets.slots.len() > 0,
    ;
    assert((id.0 as int % sockets.slots.len() as int) < sockets.slots.len()) by (nonlinear_arith)
        requires
            sockets.slots.len() > 0,
    ;
}

/// Without a socket that one is gone, and no other socket is touched.
proof fn lemma_removed(sockets: SocketsView, id: SocketId)
    requires
        sockets.wf(),
    ensures
        sockets.removed(id).get(id) is None,
        sockets.removed(id).wf(),
        forall|other: SocketId|
            other != id ==> #[trigger] sockets.removed(id).get(other) == sockets.get(other),
{
    lemma_slot(sockets, id);
    if sockets.get(id) is Some {
        let after = sockets.removed(id);
        assert forall|other: SocketId| other != id implies #[trigger] after.get(other)
            == sockets.get(other) by {
            lemma_slot(sockets, other);
        }
    }
}

/// Answers to several leave the events alone and keep the earlier answers; whoever waits gets one.
proof fn lemma_reply_all(output: NetOutputView, pending: Seq<Pending>, answer: AnswerView)
    ensures
        output.reply_all(pending, answer).events == output.events,
        output.replies.is_prefix_of(output.reply_all(pending, answer).replies),
        forall|i: int|
            #![trigger pending[i]]
            0 <= i < pending.len() && pending[i].session != 0 ==> output.reply_all(
                pending,
                answer,
            ).replies.contains((pending[i], answer)),
        output.reply_all(pending, answer).replies.len() <= output.replies.len() + pending.len(),
    decreases pending.len(),
{
    if pending.len() > 0 {
        let front = pending.drop_last();
        lemma_reply_all(output, front, answer);
        let before = output.reply_all(front, answer).replies;
        let after = output.reply_all(pending, answer).replies;
        assert(before.is_prefix_of(after));
        assert forall|i: int|
            #![trigger pending[i]]
            0 <= i < pending.len() && pending[i].session != 0 implies after.contains(
            (pending[i], answer),
        ) by {
            if i < front.len() {
                assert(front[i] == pending[i]);
                assert(before.contains((front[i], answer)));
                let k = choose|k: int| 0 <= k < before.len() && before[k] == (front[i], answer);
                assert(after[k] == (pending[i], answer));
            } else {
                assert(after[after.len() - 1] == (pending[i], answer));
            }
        }
    }
}

/// Somebody is told of a failure.
pub open spec fn refused_in(replies: Seq<(Pending, AnswerView)>, waiting: Pending) -> bool {
    exists|k: int|
        0 <= k < replies.len() && (#[trigger] replies[k]).0 == waiting && replies[k].1 is Failed
}

/// A socket that is closed is gone, everybody who waits on it is answered, its owner is told of
/// it once unless it never came up, and no other socket is touched.
pub proof fn law_a_closed_socket_leaves_nobody_waiting(
    step: NetStep,
    id: SocketId,
    farewell: FarewellView,
)
    requires
        step.sockets.wf(),
        step.sockets.get(id) is Some,
    ensures
        ({
            let after = step.closed(id, farewell);
            let socket = step.sockets.get(id)->0;
            &&& after.sockets.get(id) is None
            &&& forall|other: SocketId|
                other != id ==> #[trigger] after.sockets.get(other) == step.sockets.get(other)
            &&& after.output.events == (match farewell {
                FarewellView::Silent => step.output.events,
                FarewellView::Closed => step.output.events.push(
                    (socket.owner, SocketEventView::Close { id }),
                ),
                FarewellView::Failed(reason) => step.output.events.push(
                    (socket.owner, SocketEventView::Error { id, reason }),
                ),
            })
            &&& step.output.replies.is_prefix_of(after.output.replies)
            &&& farewell is Closed && socket.pending is Some && socket.pending->0.session != 0
                ==> after.output.replies.contains((socket.pending->0, AnswerView::Done))
            &&& farewell matches FarewellView::Failed(reason) ==> socket.pending is Some
                && socket.pending->0.session != 0 ==> after.output.replies.contains(
                (socket.pending->0, AnswerView::Failed(reason)),
            )
            &&& forall|i: int|
                #![trigger socket.send_waiters[i]]
                0 <= i < socket.send_waiters.len() && socket.send_waiters[i].session != 0
                    ==> refused_in(after.output.replies, socket.send_waiters[i])
        }),
{
    let socket = step.sockets.get(id)->0;
    let after = step.closed(id, farewell);
    let answered = match farewell {
        FarewellView::Silent => step.output,
        FarewellView::Closed => step.output.reply_to(socket.pending, AnswerView::Done),
        FarewellView::Failed(reason) => step.output.reply_to(
            socket.pending,
            AnswerView::Failed(reason),
        ),
    };
    let reason = match farewell {
        FarewellView::Failed(reason) => reason,
        _ => "连接已关闭"@,
    };
    lemma_removed(step.sockets, id);
    lemma_reply_all(answered, socket.send_waiters, AnswerView::Failed(reason));
    let released = answered.reply_all(socket.send_waiters, AnswerView::Failed(reason));
    assert(after.output.replies == released.replies);
    if socket.pending is Some && socket.pending->0.session != 0 && !(farewell is Silent) {
        let at = step.output.replies.len() as int;
        assert(answered.replies[at].0 == socket.pending->0);
        assert(after.output.replies[at] == answered.replies[at]);
    }
    assert forall|i: int|
        #![trigger socket.send_waiters[i]]
        0 <= i < socket.send_waiters.len() && socket.send_waiters[i].session
            != 0 implies refused_in(after.output.replies, socket.send_waiters[i]) by {
        let answer = (socket.send_waiters[i], AnswerView::Failed(reason));
        assert(released.replies.contains(answer));
        let k = choose|k: int| 0 <= k < released.replies.len() && released.replies[k] == answer;
        assert(after.output.replies[k] == answer);
    }
}

/// A graceful close loses no accepted bytes: while some wait the socket stays, with all of them in
/// their order, hears of the next chance to write, takes no more, and whoever asked for the close
/// is not answered yet.
pub proof fn law_a_graceful_close_loses_no_bytes(step: NetStep, pending: Pending, id: SocketId)
    requires
        step.sockets.wf(),
        step.sockets.get(id) is Some,
        outgoing(step.sockets.get(id)->0.wb).len() > 0,
    ensures
        ({
            let after = step.closing(pending, id);
            &&& after.output == step.output
            &&& after.sockets.get(id) is Some
            &&& after.sockets.get(id)->0.wb == step.sockets.get(id)->0.wb
            &&& after.sockets.get(id)->0.pending == Some(pending)
            &&& after.sockets.get(id)->0.desired() == Some(Interest::Writable)
            &&& send_obstacle(after.sockets, id) is Some
            &&& forall|other: SocketId|
                other != id ==> #[trigger] after.sockets.get(other) == step.sockets.get(other)
        }),
{
    let socket = step.sockets.get(id)->0;
    lemma_found(step.sockets, id);
    lemma_with(
        step.sockets,
        SocketView { state: State::HalfCloseWrite, pending: Some(pending), ..socket },
    );
}

/// A close with nothing left to write is carried out at once: the socket is gone, its owner is
/// told and whoever asked is answered.
pub proof fn law_a_close_with_nothing_left_is_done(step: NetStep, pending: Pending, id: SocketId)
    requires
        step.sockets.wf(),
        step.sockets.get(id) matches Some(socket) && socket.wb.is_empty(),
        pending.session != 0,
    ensures
        ({
            let after = step.closing(pending, id);
            &&& after.sockets.get(id) is None
            &&& after.output.events == step.output.events.push(
                (step.sockets.get(id)->0.owner, SocketEventView::Close { id }),
            )
            &&& after.output.replies.contains((pending, AnswerView::Done))
        }),
{
    law_a_closed_socket_leaves_nobody_waiting(step, id, FarewellView::Closed);
    let after = step.closing(pending, id);
    assert(after.output.replies[after.output.replies.len() - 1] == (pending, AnswerView::Done));
}

/// When the last byte is written a socket that was only waiting for that goes: its owner is told,
/// and whoever asked for the close is answered. Any other socket stays.
pub proof fn law_the_last_byte_ends_a_close(step: NetStep, id: SocketId)
    requires
        step.sockets.wf(),
        step.sockets.get(id) is Some,
    ensures
        ({
            let after = step.drained(id);
            let socket = step.sockets.get(id)->0;
            if send_obstacle(step.sockets, id) is None && socket.state != State::HalfCloseRead {
                after == step
            } else {
                socket.state == State::HalfCloseRead || socket.state == State::HalfCloseWrite ==> {
                    &&& after.sockets.get(id) is None
                    &&& after.output.events == step.output.events.push(
                        (socket.owner, SocketEventView::Close { id }),
                    )
                    &&& socket.pending is Some && socket.pending->0.session != 0
                        ==> after.output.replies.contains((socket.pending->0, AnswerView::Done))
                }
            }
        }),
{
    law_a_closed_socket_leaves_nobody_waiting(step, id, FarewellView::Closed);
}

/// A socket that has bytes to write is not said to be closed by a write, a read, or the end of what
/// the peer sends: where it goes all the same, its owner is told of an error.
pub proof fn law_unwritten_bytes_are_not_dropped_in_silence(
    step: NetStep,
    id: SocketId,
    wrote: WriteResult,
    read: ReadResult,
    now_ms: u64,
    low: int,
)
    requires
        step.sockets.wf(),
        step.sockets.get(id) is Some,
        !step.sockets.get(id)->0.wb.is_empty(),
    ensures
        step.peer_closed(id).sockets.get(id) is Some,
        step.peer_closed(id).sockets.get(id)->0.wb == step.sockets.get(id)->0.wb,
        step.taken(id, read, now_ms).sockets.get(id) is None ==> read is Failed && step.taken(
            id,
            read,
            now_ms,
        ).output.events.last().1 is Error,
        step.taken(id, read, now_ms).sockets.get(id) matches Some(after) ==> after.wb
            == step.sockets.get(id)->0.wb,
        step.written(id, wrote, now_ms, low).sockets.get(id) is None ==> (wrote is Failed || wrote
            == WriteResult::Wrote(0)) && step.written(
            id,
            wrote,
            now_ms,
            low,
        ).output.events.last().1 is Error,
        wrote is WouldBlock || wrote is Interrupted ==> step.written(id, wrote, now_ms, low)
            == step,
{
    let socket = step.sockets.get(id)->0;
    lemma_found(step.sockets, id);
    lemma_with(step.sockets, SocketView { state: State::HalfCloseRead, ..socket });
    if let ReadResult::Data(data) = read {
        lemma_with(step.sockets, socket.took(data@.len() as usize, now_ms));
    }
    if let ReadResult::Failed(reason) = read {
        law_a_closed_socket_leaves_nobody_waiting(
            step,
            id,
            FarewellView::Failed("读出错："@ + reason@),
        );
    }
    match wrote {
        WriteResult::Wrote(count) => {
            if count == 0 {
                law_a_closed_socket_leaves_nobody_waiting(
                    step,
                    id,
                    FarewellView::Failed("对端不再接收数据"@),
                );
            } else {
                lemma_with(step.sockets, socket.wrote(count as int, now_ms));
                let next = NetStep {
                    sockets: step.sockets.with(socket.wrote(count as int, now_ms)),
                    ..step
                };
                lemma_relieved(next, id, low);
            }
        },
        WriteResult::Failed(reason) => {
            law_a_closed_socket_leaves_nobody_waiting(
                step,
                id,
                FarewellView::Failed("写出错："@ + reason@),
            );
        },
        _ => {},
    }
}

proof fn lemma_relieved(step: NetStep, id: SocketId, low: int)
    requires
        step.sockets.wf(),
        step.sockets.get(id) is Some,
    ensures
        step.relieved(id, low).sockets.get(id) is Some,
        step.relieved(id, low).sockets.get(id)->0.wb == step.sockets.get(id)->0.wb,
        step.relieved(id, low).sockets.get(id)->0.stat == step.sockets.get(id)->0.stat,
        step.relieved(id, low).output.events == step.output.events,
        forall|other: SocketId|
            other != id ==> #[trigger] step.relieved(id, low).sockets.get(other)
                == step.sockets.get(other),
{
    let socket = step.sockets.get(id)->0;
    lemma_found(step.sockets, id);
    lemma_with(step.sockets, SocketView { send_waiters: Seq::empty(), ..socket });
    lemma_reply_all(step.output, socket.send_waiters, AnswerView::Done);
}

/// Whoever waits until fewer bytes wait is answered when that is so, each of them, and not before.
pub proof fn law_senders_go_on_when_few_bytes_wait(step: NetStep, id: SocketId, low: int)
    requires
        step.sockets.wf(),
        step.sockets.get(id) is Some,
    ensures
        ({
            let socket = step.sockets.get(id)->0;
            let after = step.relieved(id, low);
            if outgoing(socket.wb).len() <= low {
                &&& after.sockets.get(id)->0.send_waiters.len() == 0
                &&& forall|i: int|
                    #![trigger socket.send_waiters[i]]
                    0 <= i < socket.send_waiters.len() && socket.send_waiters[i].session != 0
                        ==> after.output.replies.contains(
                        (socket.send_waiters[i], AnswerView::Done),
                    )
            } else {
                after == step
            }
        }),
{
    let socket = step.sockets.get(id)->0;
    law_the_count_is_that_of_the_bytes(socket.wb);
    lemma_found(step.sockets, id);
    lemma_with(step.sockets, SocketView { send_waiters: Seq::empty(), ..socket });
    lemma_reply_all(step.output, socket.send_waiters, AnswerView::Done);
}

/// A sender is answered at once, or is noted as waiting where it asked to and too many bytes wait:
/// one of the two, and its bytes stay in the queue.
pub proof fn law_a_sender_is_answered_or_waits(
    step: NetStep,
    pending: Pending,
    id: SocketId,
    wait: bool,
    high: int,
)
    requires
        step.sockets.wf(),
        step.sockets.get(id) is Some,
        pending.session != 0,
    ensures
        ({
            let socket = step.sockets.get(id)->0;
            let after = step.sent(pending, id, wait, high);
            let many = outgoing(socket.wb).len() >= high && outgoing(socket.wb).len() > 0;
            &&& after.sockets.get(id) is Some
            &&& after.sockets.get(id)->0.wb == socket.wb
            &&& if wait && many {
                &&& after.output == step.output
                &&& after.sockets.get(id)->0.send_waiters == socket.send_waiters.push(pending)
            } else {
                &&& after.output.replies == step.output.replies.push((pending, AnswerView::Done))
                &&& after.sockets == step.sockets
            }
        }),
{
    let socket = step.sockets.get(id)->0;
    law_the_count_is_that_of_the_bytes(socket.wb);
    lemma_found(step.sockets, id);
    lemma_with(
        step.sockets,
        SocketView { send_waiters: socket.send_waiters.push(pending), ..socket },
    );
}

/// A successful write takes the written bytes off the front of what waits on that socket, and
/// counts them; nobody else's bytes are touched.
pub proof fn law_a_write_moves_one_socket_on(
    step: NetStep,
    id: SocketId,
    count: usize,
    now_ms: u64,
    low: int,
)
    requires
        step.sockets.wf(),
        step.sockets.get(id) is Some,
        step.sockets.get(id)->0.wb.high.len() > 0,
        0 < count <= step.sockets.get(id)->0.wb.high[0].rest.len(),
    ensures
        ({
            let socket = step.sockets.get(id)->0;
            let after = step.written(id, WriteResult::Wrote(count), now_ms, low);
            &&& after.sockets.get(id) is Some
            &&& outgoing(socket.wb) == socket.wb.high[0].rest.take(count as int) + outgoing(
                after.sockets.get(id)->0.wb,
            )
            &&& socket.stat.write_bytes + count <= u64::MAX ==> after.sockets.get(
                id,
            )->0.stat.write_bytes == socket.stat.write_bytes + count
            &&& after.output.events == step.output.events
            &&& forall|other: SocketId|
                other != id ==> #[trigger] after.sockets.get(other) == step.sockets.get(other)
        }),
{
    let socket = step.sockets.get(id)->0;
    lemma_found(step.sockets, id);
    lemma_with(step.sockets, socket.wrote(count as int, now_ms));
    let next = NetStep { sockets: step.sockets.with(socket.wrote(count as int, now_ms)), ..step };
    lemma_relieved(next, id, low);
    law_a_write_takes_the_first_bytes(socket.wb, count as int);
}

/// What is read goes to the owner, once, whole and behind everything told before; the bytes that
/// wait to be written are not touched.
pub proof fn law_read_bytes_reach_the_owner(
    step: NetStep,
    id: SocketId,
    data: Vec<u8>,
    now_ms: u64,
)
    requires
        step.sockets.wf(),
        step.sockets.get(id) is Some,
    ensures
        ({
            let socket = step.sockets.get(id)->0;
            let after = step.taken(id, ReadResult::Data(data), now_ms);
            &&& after.output.events == step.output.events.push(
                (socket.owner, SocketEventView::Data { id, data: data@ }),
            )
            &&& after.output.replies == step.output.replies
            &&& after.sockets.get(id) is Some
            &&& after.sockets.get(id)->0.wb == socket.wb
            &&& after.sockets.get(id)->0.state == socket.state
            &&& forall|other: SocketId|
                other != id ==> #[trigger] after.sockets.get(other) == step.sockets.get(other)
        }),
{
    let socket = step.sockets.get(id)->0;
    lemma_found(step.sockets, id);
    lemma_with(step.sockets, socket.took(data@.len() as usize, now_ms));
}

/// A datagram goes to the owner with its sender, and one that goes wrong does not harm the socket.
pub proof fn law_datagrams_reach_the_owner(
    step: NetStep,
    id: SocketId,
    result: UdpResult,
    now_ms: u64,
)
    requires
        step.sockets.wf(),
        step.sockets.get(id) is Some,
    ensures
        ({
            let socket = step.sockets.get(id)->0;
            let after = step.received(id, result, now_ms);
            &&& after.sockets.get(id) is Some
            &&& after.sockets.get(id)->0.wb == socket.wb
            &&& after.output.replies == step.output.replies
            &&& after.output.events == (match result {
                UdpResult::Datagram { from, data } => step.output.events.push(
                    (socket.owner, SocketEventView::Udp { id, from: from@, data: data@ }),
                ),
                _ => step.output.events,
            })
        }),
{
    let socket = step.sockets.get(id)->0;
    lemma_found(step.sockets, id);
    if let UdpResult::Datagram { from, data } = result {
        lemma_with(step.sockets, socket.received(data@.len() as int, now_ms));
    }
}

/// Bytes that are taken for sending wait behind what waits already, and nobody is answered by
/// that; bytes that are not taken change nothing, and whoever sent them is told why.
pub proof fn law_sent_bytes_wait_or_are_refused(
    step: NetStep,
    pending: Pending,
    id: SocketId,
    chunk: ChunkView,
    threshold: usize,
)
    requires
        step.sockets.wf(),
        pending.session != 0,
    ensures
        ({
            let after = step.queued(pending, id, chunk, false, threshold);
            match step.sockets.get(id) {
                Some(socket) => if socket.state == State::Connected || socket.state
                    == State::HalfCloseRead {
                    &&& after.output.replies == step.output.replies
                    &&& after.sockets.get(id) is Some
                    &&& outgoing(after.sockets.get(id)->0.wb) == outgoing(socket.wb) + chunk.rest
                    &&& forall|other: SocketId|
                        other != id ==> #[trigger] after.sockets.get(other) == step.sockets.get(
                            other,
                        )
                } else {
                    &&& after.sockets == step.sockets
                    &&& after.output.events == step.output.events
                    &&& after.output.replies.len() == step.output.replies.len() + 1
                    &&& after.output.replies.last().0 == pending
                    &&& after.output.replies.last().1 is Failed
                },
                None => {
                    &&& after.sockets == step.sockets
                    &&& after.output.replies.len() == step.output.replies.len() + 1
                    &&& after.output.replies.last().0 == pending
                    &&& after.output.replies.last().1 is Failed
                },
            }
        }),
{
    if let Some(socket) = step.sockets.get(id) {
        lemma_found(step.sockets, id);
        law_bytes_are_queued_in_order(socket.wb, chunk, false, threshold);
        lemma_with(
            step.sockets,
            SocketView { wb: socket.wb.push(chunk, false, threshold).0, ..socket },
        );
    }
}

/// A datagram that is taken waits whole, with the destination it names or else the remembered peer;
/// one without a destination, or too large, is refused and changes nothing.
pub proof fn law_a_datagram_knows_where_it_goes(
    step: NetStep,
    pending: Pending,
    id: SocketId,
    to: Option<Seq<char>>,
    data: Seq<u8>,
    threshold: usize,
)
    requires
        step.sockets.wf(),
        step.sockets.get(id) matches Some(socket) && socket.state == State::Connected,
    ensures
        ({
            let socket = step.sockets.get(id)->0;
            let after = step.datagram_queued(pending, id, to, data, threshold);
            if data.len() <= 65535 && (to is Some || socket.udp_peer is Some) {
                &&& after.sockets.get(id) is Some
                &&& after.sockets.get(id)->0.wb.high.len() == socket.wb.high.len() + 1
                &&& after.sockets.get(id)->0.wb.high.drop_last() == socket.wb.high
                &&& after.sockets.get(id)->0.wb.low == socket.wb.low
                &&& after.sockets.get(id)->0.wb.high.last().rest == data
                &&& after.sockets.get(id)->0.wb.high.last().to == (if to is Some {
                    to
                } else {
                    socket.udp_peer
                })
            } else {
                &&& after.sockets == step.sockets
                &&& pending.session != 0 ==> after.output.replies.len()
                    == step.output.replies.len() + 1 && after.output.replies.last().0 == pending
                    && after.output.replies.last().1 is Failed
            }
        }),
{
    let socket = step.sockets.get(id)->0;
    lemma_found(step.sockets, id);
    let target = if to is Some {
        to
    } else {
        socket.udp_peer
    };
    let chunk = ChunkView { rest: data, to: target };
    lemma_with(step.sockets, SocketView { wb: socket.wb.push(chunk, true, threshold).0, ..socket });
    let after = step.datagram_queued(pending, id, to, data, threshold);
    if data.len() <= MAX_UDP_PACKAGE && target is Some {
        assert(after.sockets.get(id)->0.wb.high.drop_last() =~= socket.wb.high);
    }
}

/// Pausing keeps everything but the taking in, and starting again brings the socket back as it
/// was, with whoever started it as its owner.
pub proof fn law_pausing_loses_nothing(step: NetStep, pending: Pending, id: SocketId)
    requires
        step.sockets.wf(),
        step.sockets.get(id) is Some,
    ensures
        ({
            let socket = step.sockets.get(id)->0;
            let after = step.paused(pending, id);
            let again = after.started(pending, id);
            &&& after.output == step.output
            &&& after.sockets.get(id) is Some
            &&& after.sockets.get(id)->0.paused
            &&& after.sockets.get(id)->0.wb == socket.wb
            &&& after.sockets.get(id)->0.owner == socket.owner
            &&& after.sockets.get(id)->0.state == socket.state
            &&& again.output == step.output
            &&& again == step.started(pending, id)
            &&& again.sockets.get(id) is Some
            &&& again.sockets.get(id)->0.owner == pending.source
            &&& !again.sockets.get(id)->0.paused
            &&& again.sockets.get(id)->0.wb == socket.wb
            &&& socket.state == State::PreListen ==> again.sockets.get(id)->0.state
                == State::Listen
            &&& socket.state == State::PreAccept ==> again.sockets.get(id)->0.state
                == State::Connected
            &&& socket.state != State::PreListen && socket.state != State::PreAccept
                ==> again.sockets.get(id)->0.state == socket.state
        }),
{
    let socket = step.sockets.get(id)->0;
    lemma_found(step.sockets, id);
    let idle = SocketView { paused: true, ..socket };
    lemma_with(step.sockets, idle);
    let busy = SocketView {
        owner: pending.source,
        paused: false,
        state: match socket.state {
            State::PreListen => State::Listen,
            State::PreAccept => State::Connected,
            keep => keep,
        },
        ..socket
    };
    lemma_with(step.sockets, busy);
    lemma_with(step.sockets.with(idle), busy);
    assert(step.sockets.with(idle).with(busy).slots =~= step.sockets.with(busy).slots);
}

/// An address that fails is not the end while others are left: nobody is told, and the socket of
/// the failed attempt is gone. When none is left, whoever asked is told.
pub proof fn law_a_failed_address_is_not_the_end(step: NetStep, id: SocketId, error: Seq<char>)
    requires
        step.sockets.wf(),
        step.sockets.get(id) is Some,
        step.sockets.get(id)->0.send_waiters.len() == 0,
        step.sockets.get(id)->0.pending is Some,
        step.sockets.get(id)->0.pending->0.session != 0,
    ensures
        ({
            let socket = step.sockets.get(id)->0;
            let after = step.connect_decided(id, Some(error));
            &&& after.sockets.get(id) is None
            &&& after.output.events == step.output.events
            &&& socket.connect_fallbacks.len() > 0 ==> after.output.replies == step.output.replies
            &&& socket.connect_fallbacks.len() == 0 ==> after.output.replies.len()
                == step.output.replies.len() + 1 && after.output.replies.last().0
                == socket.pending->0 && after.output.replies.last().1 is Failed
        }),
{
    law_a_closed_socket_leaves_nobody_waiting(step, id, FarewellView::Silent);
}

/// A connection that is up can be written to and read from, and keeps its number.
pub proof fn law_a_connection_that_is_up_can_be_used(step: NetStep, id: SocketId)
    requires
        step.sockets.wf(),
        step.sockets.get(id) is Some,
    ensures
        ({
            let after = step.connect_decided(id, None);
            &&& after.output == step.output
            &&& after.sockets.get(id) is Some
            &&& send_obstacle(after.sockets, id) is None
            &&& after.sockets.get(id)->0.desired() == Some(Interest::Readable)
                || after.sockets.get(id)->0.desired() == Some(Interest::Both)
            &&& after.sockets.get(id)->0.pending is None
            &&& after.sockets.get(id)->0.wb == step.sockets.get(id)->0.wb
            &&& after.sockets.get(id)->0.owner == step.sockets.get(id)->0.owner
        }),
{
    let socket = step.sockets.get(id)->0;
    lemma_found(step.sockets, id);
    lemma_with(
        step.sockets,
        SocketView {
            state: State::Connected,
            pending: None,
            connect_fallbacks: Seq::empty(),
            ..socket
        },
    );
}

/// Only a connection that is still on its way when its time is over is given up, and whoever
/// asked for it is told; every other socket is left alone.
pub proof fn law_only_a_late_connection_is_given_up(step: NetStep, id: SocketId, now_ms: u64)
    requires
        step.sockets.wf(),
        step.sockets.get(id) is Some,
    ensures
        ({
            let socket = step.sockets.get(id)->0;
            let after = step.connect_timed_out(id, now_ms);
            let late = socket.state == State::Connecting && socket.connect_deadline_ms is Some
                && socket.connect_deadline_ms->0 <= now_ms;
            &&& !late ==> after == step
            &&& late ==> after.sockets.get(id) is None
            &&& late && socket.pending is Some && socket.pending->0.session != 0
                ==> after.output.replies.len() > 0 && after.output.replies.last()
                == (socket.pending->0, AnswerView::Failed("连接超时"@))
            &&& late ==> after.output.events == step.output.events
        }),
{
    law_a_closed_socket_leaves_nobody_waiting(step, id, FarewellView::Silent);
}

/// A new socket stands under a number that nobody had, belongs to whoever it was entered for, has
/// nothing to write, and leaves all others where they are.
proof fn lemma_inserted(sockets: SocketsView, owner: u32, kind: Kind, state: State)
    requires
        sockets.wf(),
        sockets.slots.len() <= usize::MAX,
    ensures
        ({
            let (after, id) = sockets.inserted(owner, kind, state);
            &&& id matches Some(id) ==> {
                &&& sockets.get(id) is None
                &&& after.get(id) is Some
                &&& after.get(id)->0.id == id
                &&& after.get(id)->0.slot == after.slot_of(id)
                &&& after.get(id)->0.owner == owner
                &&& after.get(id)->0.kind == kind
                &&& after.get(id)->0.state == state
                &&& after.get(id)->0.wb == QueueView::empty()
                &&& after.get(id)->0.send_waiters.len() == 0
                &&& !after.get(id)->0.paused
                &&& after.wf()
            }
            &&& forall|other: SocketId|
                id != Some(other) ==> #[trigger] after.get(other) == sockets.get(other)
        }),
{
    let (after, id) = sockets.inserted(owner, kind, state);
    let steps = sockets.passed_over(0);
    if let Some(id) = id {
        lemma_slot(sockets, id);
        lemma_passed(sockets, 0);
        lemma_positive(sockets.next, steps);
        assert(sockets.slots[sockets.slot_of(id)] is None);
        assert(after.slots.len() == sockets.slots.len());
        assert(id.0 > 0);
        assert forall|other: SocketId| other != id implies #[trigger] after.get(other)
            == sockets.get(other) by {
            lemma_slot(sockets, other);
        }
    }
}

proof fn lemma_passed(sockets: SocketsView, from: nat)
    ensures
        sockets.passed_over(from) < sockets.reach() ==> sockets.free_ahead(
            sockets.passed_over(from),
        ),
    decreases sockets.reach() - from,
{
    if from < sockets.reach() && !sockets.free_ahead(from) {
        lemma_passed(sockets, from + 1);
    }
}

proof fn lemma_positive(id: u32, steps: nat)
    requires
        id > 0,
    ensures
        crate::net::socket::id_after(id, steps) > 0,
    decreases steps,
{
    if steps > 0 {
        lemma_positive(id, (steps - 1) as nat);
    }
}

/// Whoever asks for a listener gets the number under which it stands, or is refused; it accepts
/// nothing until it is started, and no other socket is touched.
pub proof fn law_a_listener_waits_to_be_started(step: NetStep, pending: Pending)
    requires
        step.sockets.wf(),
        step.sockets.slots.len() <= usize::MAX,
        pending.session != 0,
    ensures
        ({
            let after = step.listening(pending);
            &&& after.output.events == step.output.events
            &&& after.output.replies.len() == step.output.replies.len() + 1
            &&& after.output.replies.drop_last() == step.output.replies
            &&& after.output.replies.last().0 == pending
            &&& match after.output.replies.last().1 {
                AnswerView::Id(id) => {
                    &&& step.sockets.get(id) is None
                    &&& after.sockets.get(id) is Some
                    &&& after.sockets.get(id)->0.owner == pending.source
                    &&& after.sockets.get(id)->0.kind == Kind::Listener
                    &&& after.sockets.get(id)->0.desired() is None
                    &&& after.started(pending, id).sockets.get(id)->0.desired() == Some(
                        Interest::Readable,
                    )
                    &&& forall|other: SocketId|
                        other != id ==> #[trigger] after.sockets.get(other) == step.sockets.get(
                            other,
                        )
                },
                AnswerView::Failed(_) => forall|other: SocketId| #[trigger]
                    after.sockets.get(other) == step.sockets.get(other),
                _ => false,
            }
        }),
{
    lemma_inserted(step.sockets, pending.source, Kind::Listener, State::PreListen);
    let after = step.listening(pending);
    assert(after.output.replies.drop_last() =~= step.output.replies);
    if let AnswerView::Id(id) = after.output.replies.last().1 {
        let socket = after.sockets.get(id)->0;
        lemma_with(
            after.sockets,
            SocketView { owner: pending.source, paused: false, state: State::Listen, ..socket },
        );
    }
}

/// A connection on its way belongs to whoever asked, who waits for it with the other addresses and
/// the time that were given, and is answered only when it is decided.
pub proof fn law_a_connection_keeps_its_other_addresses(
    step: NetStep,
    pending: Pending,
    fallbacks: Seq<Seq<char>>,
    deadline_ms: Option<u64>,
)
    requires
        step.sockets.wf(),
        step.sockets.slots.len() <= usize::MAX,
        pending.session != 0,
    ensures
        ({
            let (after, id) = step.connecting(pending, fallbacks, deadline_ms);
            match id {
                Some(id) => {
                    &&& after.output == step.output
                    &&& step.sockets.get(id) is None
                    &&& after.sockets.get(id) is Some
                    &&& after.sockets.get(id)->0.owner == pending.source
                    &&& after.sockets.get(id)->0.pending == Some(pending)
                    &&& after.sockets.get(id)->0.connect_fallbacks == fallbacks
                    &&& after.sockets.get(id)->0.connect_deadline_ms == deadline_ms
                    &&& after.sockets.get(id)->0.desired() == Some(Interest::Writable)
                    &&& send_obstacle(after.sockets, id) is Some
                    &&& forall|other: SocketId|
                        other != id ==> #[trigger] after.sockets.get(other) == step.sockets.get(
                            other,
                        )
                },
                None => after.output.replies.len() == step.output.replies.len() + 1
                    && after.output.replies.last().0 == pending
                    && after.output.replies.last().1 is Failed,
            }
        }),
{
    lemma_inserted(step.sockets, pending.source, Kind::Stream, State::Connecting);
    let (sockets, id) = step.sockets.inserted(pending.source, Kind::Stream, State::Connecting);
    if let Some(id) = id {
        lemma_with(
            sockets,
            SocketView {
                pending: Some(pending),
                connect_fallbacks: fallbacks,
                connect_deadline_ms: deadline_ms,
                ..sockets.get(id)->0
            },
        );
    }
}

/// A datagram socket can be written to at once and remembers the peer that it was opened for.
pub proof fn law_a_datagram_socket_is_ready(
    step: NetStep,
    pending: Pending,
    peer: Option<Seq<char>>,
)
    requires
        step.sockets.wf(),
        step.sockets.slots.len() <= usize::MAX,
        pending.session != 0,
    ensures
        ({
            let (after, id) = step.udp_opened(pending, peer);
            match id {
                Some(id) => {
                    &&& after.output == step.output
                    &&& step.sockets.get(id) is None
                    &&& after.sockets.get(id) is Some
                    &&& after.sockets.get(id)->0.kind == Kind::Udp
                    &&& after.sockets.get(id)->0.owner == pending.source
                    &&& after.sockets.get(id)->0.udp_peer == peer
                    &&& send_obstacle(after.sockets, id) is None
                },
                None => after.output.replies.len() == step.output.replies.len() + 1
                    && after.output.replies.last().0 == pending
                    && after.output.replies.last().1 is Failed,
            }
        }),
{
    lemma_inserted(step.sockets, pending.source, Kind::Udp, State::Connected);
    let (sockets, id) = step.sockets.inserted(pending.source, Kind::Udp, State::Connected);
    if let Some(id) = id {
        lemma_with(sockets, SocketView { udp_peer: peer, ..sockets.get(id)->0 });
    }
}

/// A connection that a listener takes is told to the listener's owner under a number of its own,
/// with its peer, belongs to that owner, and takes nothing in until it is started. With no slot
/// free nobody is told.
pub proof fn law_an_accepted_connection_is_told(step: NetStep, listen: SocketId, peer: Seq<char>)
    requires
        step.sockets.wf(),
        step.sockets.slots.len() <= usize::MAX,
        step.sockets.get(listen) is Some,
    ensures
        ({
            let (after, id) = step.accepted(listen, peer);
            let listener = step.sockets.get(listen)->0;
            &&& after.output.replies == step.output.replies
            &&& match id {
                Some(id) => {
                    &&& id != listen
                    &&& step.sockets.get(id) is None
                    &&& after.output.events == step.output.events.push(
                        (listener.owner, SocketEventView::Accept { id, listen, peer }),
                    )
                    &&& after.sockets.get(id) is Some
                    &&& after.sockets.get(id)->0.owner == listener.owner
                    &&& after.sockets.get(id)->0.kind == Kind::Stream
                    &&& after.sockets.get(id)->0.peer == Some(peer)
                    &&& after.sockets.get(id)->0.desired() is None
                },
                None => after.output.events == step.output.events,
            }
        }),
{
    let listener = step.sockets.get(listen)->0;
    lemma_found(step.sockets, listen);
    let counted = SocketView {
        stat: crate::net::socket::Stat {
            accept_count: crate::net::traffic::capped(listener.stat.accept_count, 1),
            ..listener.stat
        },
        ..listener
    };
    lemma_with(step.sockets, counted);
    let sockets = step.sockets.with(counted);
    lemma_inserted(sockets, listener.owner, Kind::Stream, State::PreAccept);
    let (entered, id) = sockets.inserted(listener.owner, Kind::Stream, State::PreAccept);
    if let Some(id) = id {
        lemma_with(entered, SocketView { peer: Some(peer), ..entered.get(id)->0 });
    }
}

/// A socket with bytes to write always hears when it can write; one that is connected always hears
/// when it can read; and once a change of what it hears of is made, no other is due.
pub proof fn law_a_socket_hears_what_it_waits_for(socket: SocketView)
    ensures
        !socket.wb.is_empty() && send_obstacle_free(socket) ==> socket.desired() == Some(
            Interest::Writable,
        ) || socket.desired() == Some(Interest::Both),
        socket.state == State::Connected ==> socket.desired() == Some(Interest::Readable)
            || socket.desired() == Some(Interest::Both),
        socket.state == State::Connected && socket.wb.is_empty() ==> socket.desired() == Some(
            Interest::Readable,
        ),
        socket.applied().registration() == Registration::Keep,
        socket.registration() == Registration::Keep <==> socket.applied() == socket,
        socket.applied().wb == socket.wb,
{
}

/// Bytes of the socket can still leave.
pub open spec fn send_obstacle_free(socket: SocketView) -> bool {
    socket.state == State::Connected || socket.state == State::HalfCloseRead || socket.state
        == State::HalfCloseWrite
}

/// A request to send leaves the bytes of the request, all of them, among what waits on the socket
/// that it names, in the queue that it names, and is followed by writing; it is answered only after
/// that, and waits where it says so.
pub proof fn law_a_send_request_is_carried_out(
    step: NetStep,
    config: NetConfig,
    pending: Pending,
    id: SocketId,
    data: Vec<u8>,
    high: bool,
    now_ms: u64,
)
    requires
        step.sockets.wf(),
        step.sockets.get(id) matches Some(socket) && socket.state == State::Connected,
    ensures
        ({
            let socket = step.sockets.get(id)->0;
            let send = Command::Send { id, data, high };
            let wait = Command::SendWait { id, data, high };
            let after = step.performed(config, pending, send, now_ms);
            &&& after == step.performed(config, pending, wait, now_ms)
            &&& after.output.replies == step.output.replies
            &&& after.sockets.get(id) is Some
            &&& outgoing(after.sockets.get(id)->0.wb) == (if high {
                bytes_of(socket.wb.high) + data@ + bytes_of(socket.wb.low)
            } else {
                outgoing(socket.wb) + data@
            })
            &&& step.task(send, now_ms) == (Task::Flush { id, wait: false })
            &&& step.task(wait, now_ms) == (Task::Flush { id, wait: true })
        }),
{
    let socket = step.sockets.get(id)->0;
    let chunk = ChunkView { rest: data@, to: None };
    lemma_found(step.sockets, id);
    law_bytes_are_queued_in_order(socket.wb, chunk, high, config.warn_size);
    lemma_with(
        step.sockets,
        SocketView { wb: socket.wb.push(chunk, high, config.warn_size).0, ..socket },
    );
}

/// A request to close does nothing before what waits was written as far as it goes; a request to
/// shut down closes at once; a request to start, to pause or to describe concerns the socket that
/// it names; and a request to connect within a time is given up after that time.
pub proof fn law_requests_lead_to_what_they_ask_for(
    step: NetStep,
    config: NetConfig,
    pending: Pending,
    id: SocketId,
    addr: String,
    timeout_ms: u64,
    now_ms: u64,
)
    requires
        step.sockets.wf(),
        step.sockets.get(id) is Some,
        pending.session != 0,
        now_ms + timeout_ms <= u64::MAX,
    ensures
        step.performed(config, pending, Command::Close(id), now_ms) == step,
        step.task(Command::Close(id), now_ms) == (Task::Close { id }),
        step.performed(config, pending, Command::Shutdown(id), now_ms).sockets.get(id) is None,
        step.performed(config, pending, Command::Shutdown(id), now_ms).output.replies.last() == (
            pending,
            AnswerView::Done,
        ),
        step.task(Command::Start(id), now_ms) == (Task::Start {
            id,
            kind: step.sockets.get(id)->0.kind,
            resumed: step.sockets.get(id)->0.paused,
        }),
        step.performed(config, pending, Command::Start(id), now_ms).sockets.get(id)->0.owner
            == pending.source,
        step.task(Command::Pause(id), now_ms) == (Task::Pause { id }),
        step.performed(config, pending, Command::Pause(id), now_ms).sockets.get(id)->0.paused,
        step.performed(config, pending, Command::Info(id), now_ms).output.replies.last() == (
            pending,
            AnswerView::Info(step.sockets.get(id)->0.info()),
        ),
        step.performed(config, pending, Command::Info(id), now_ms).sockets == step.sockets,
        step.task(Command::ConnectWithTimeout { addr, timeout_ms }, now_ms) == Task::Address(
            Purpose::Connect { deadline_ms: Some((now_ms + timeout_ms) as u64) },
        ),
        step.task(Command::Connect { addr }, now_ms) == Task::Address(
            Purpose::Connect { deadline_ms: None },
        ),
        step.task(Command::Listen { addr }, now_ms) == Task::Address(Purpose::Listen),
        step.task(Command::UdpForPeer { addr }, now_ms) == Task::Address(Purpose::UdpForPeer),
        step.task(Command::UdpConnect { id, addr }, now_ms) == Task::Address(
            Purpose::UdpConnect { id },
        ),
{
    law_a_closed_socket_leaves_nobody_waiting(step, id, FarewellView::Closed);
    law_pausing_loses_nothing(step, pending, id);
}

/// A request about a socket that is not there changes nothing, is told so, and leads to nothing
/// being done.
pub proof fn law_a_missing_socket_is_told(
    step: NetStep,
    config: NetConfig,
    pending: Pending,
    id: SocketId,
    command: Command,
    now_ms: u64,
)
    requires
        step.sockets.get(id) is None,
        pending.session != 0,
        command == Command::Start(id) || command == Command::Pause(id) || command
            == Command::Info(id) || (command matches Command::Send { id: to, .. } && to == id) || (
        command matches Command::SendWait { id: to, .. } && to == id),
    ensures
        step.performed(config, pending, command, now_ms).sockets == step.sockets,
        step.performed(config, pending, command, now_ms).output.events == step.output.events,
        step.performed(config, pending, command, now_ms).output.replies.len()
            == step.output.replies.len() + 1,
        step.performed(config, pending, command, now_ms).output.replies.last().0 == pending,
        step.performed(config, pending, command, now_ms).output.replies.last().1 is Failed,
        step.task(command, now_ms) == Task::Nothing,
{
}

/// A description says what is known of the socket: its owner, its state and its addresses, how many
/// bytes wait and went by, and whether it takes anything in.
pub proof fn law_a_description_is_that_of_the_socket(socket: SocketView)
    ensures
        socket.info().id == socket.id,
        socket.info().owner == socket.owner,
        socket.info().paused == socket.paused,
        socket.info().local == socket.local,
        socket.kind == Kind::Stream ==> socket.info().peer == socket.peer,
        socket.kind == Kind::Udp ==> socket.info().peer == socket.udp_peer,
        socket.info().write_pending == outgoing(socket.wb).len(),
        socket.info().read_bytes == socket.stat.read_bytes,
        socket.info().write_bytes == socket.stat.write_bytes,
        socket.info().accept_count == socket.stat.accept_count,
        socket.paused ==> !socket.info().reading,
        !socket.paused && socket.state == State::Connected ==> socket.info().reading,
        socket.info().writing <==> leaving(socket.wb).len() > 0,
{
    law_the_count_is_that_of_the_bytes(socket.wb);
}

/// A paused socket takes nothing in; one that is not paused takes in what its kind takes in.
pub proof fn law_a_paused_socket_takes_nothing_in(socket: SocketView)
    ensures
        socket.paused ==> socket.to_read() is None && !socket.to_accept(),
        !socket.paused && socket.kind == Kind::Stream ==> socket.to_read() == Some(
            socket.read.size,
        ),
        !socket.paused ==> (socket.to_accept() <==> socket.kind == Kind::Listener),
        socket.kind != Kind::Stream ==> socket.to_read() is None,
{
}

/// Everything is said to be written exactly where no chunk waits, and what waits on a connection
/// is written.
pub proof fn law_writing_ends_with_the_last_chunk(socket: SocketView)
    ensures
        socket.to_flush() == FlushStep::Drained <==> leaving(socket.wb).len() == 0,
        leaving(socket.wb).len() > 0 && socket.kind != Kind::Listener ==> socket.to_flush()
            == FlushStep::Write,
{
}

/// After a write that worked and after an interruption the next one is tried, after one that found
/// no room the socket waits to be writable, and after a failure nothing is tried. Reading goes on
/// until nothing is left.
pub proof fn law_traffic_goes_on_until_it_stalls(
    wrote: WriteResult,
    read: ReadResult,
    datagram: UdpResult,
    stays: bool,
)
    ensures
        after_write(true, wrote) == Next::Again <==> wrote is Interrupted || (wrote is Wrote
            && wrote != WriteResult::Wrote(0)),
        after_write(true, wrote) == Next::Apply <==> wrote is WouldBlock,
        after_read(true, stays, read) == Next::Again <==> read is Data || read is Interrupted,
        after_read(true, true, read) == Next::Apply <==> read is Eof,
        after_datagram(datagram) == Next::Again <==> datagram is Datagram || datagram
            is Interrupted,
        after_write(false, wrote) == Next::Stop,
        after_read(false, stays, read) == Next::Stop,
{
}

/// An address that fails is followed by all the others, in their order, for the same caller and
/// until the same time; without others, or with nobody waiting, nothing is tried.
pub proof fn law_the_other_addresses_are_tried(socket: SocketView)
    ensures
        socket.to_retry() is Some <==> socket.pending is Some && socket.connect_fallbacks.len()
            > 0,
        socket.to_retry() matches Some((caller, others, deadline)) ==> Some(caller)
            == socket.pending && others == socket.connect_fallbacks && deadline
            == socket.connect_deadline_ms,
{
}

/// A datagram socket sends to the peer it was last told of, and only a datagram socket has one.
pub proof fn law_the_last_peer_is_remembered(
    step: NetStep,
    pending: Pending,
    id: SocketId,
    peer: Seq<char>,
)
    requires
        step.sockets.wf(),
        step.sockets.get(id) is Some,
        pending.session != 0,
    ensures
        ({
            let after = step.peer_set(pending, id, peer);
            &&& after.output.replies.len() == step.output.replies.len() + 1
            &&& after.output.replies.last().0 == pending
            &&& if step.sockets.get(id)->0.kind == Kind::Udp {
                &&& after.sockets.get(id) is Some
                &&& after.sockets.get(id)->0.udp_peer == Some(peer)
                &&& after.sockets.get(id)->0.wb == step.sockets.get(id)->0.wb
                &&& after.output.replies.last().1 == AnswerView::Done
            } else {
                &&& after.sockets == step.sockets
                &&& after.output.replies.last().1 is Failed
            }
        }),
{
    let socket = step.sockets.get(id)->0;
    lemma_found(step.sockets, id);
    lemma_with(step.sockets, SocketView { udp_peer: Some(peer), ..socket });
}

/// A datagram that can go is queued and flushed, one that cannot leads to nothing; who waits for it
/// is answered later.
pub proof fn law_a_datagram_request_is_carried_out(
    step: NetStep,
    id: SocketId,
    to: Option<String>,
    data: Vec<u8>,
    now_ms: u64,
)
    requires
        step.sockets.get(id) matches Some(socket) && socket.state == State::Connected,
    ensures
        ({
            let socket = step.sockets.get(id)->0;
            let goes = data@.len() <= 65535 && (to is Some || socket.udp_peer is Some);
            &&& step.task(Command::UdpSend { id, to, data }, now_ms) == (if goes {
                Task::Flush { id, wait: false }
            } else {
                Task::Nothing
            })
            &&& step.task(Command::UdpSendWait { id, to, data }, now_ms) == (if goes {
                Task::Flush { id, wait: true }
            } else {
                Task::Nothing
            })
        }),
{
}

/// What only a stream can do is refused of a datagram socket, and the other way round; of the right
/// kind of socket it is done.
pub proof fn law_requests_fit_the_kind_of_socket(
    step: NetStep,
    config: NetConfig,
    pending: Pending,
    id: SocketId,
    on: bool,
    peer: Seq<char>,
    now_ms: u64,
)
    requires
        step.sockets.wf(),
        step.sockets.get(id) is Some,
        pending.session != 0,
    ensures
        ({
            let socket = step.sockets.get(id)->0;
            let command = Command::NoDelay { id, on };
            let after = step.performed(config, pending, command, now_ms);
            if socket.kind == Kind::Stream {
                after == step && step.task(command, now_ms) == (Task::NoDelay { id, on })
            } else {
                after.sockets == step.sockets && after.output.replies.last().0 == pending
                    && after.output.replies.last().1 is Failed && step.task(command, now_ms)
                    == Task::Nothing
            }
        }),
        ({
            let socket = step.sockets.get(id)->0;
            let after = step.peer_set(pending, id, peer);
            &&& after.output.replies.last().0 == pending
            &&& after.output.events == step.output.events
            &&& if socket.kind == Kind::Udp {
                &&& after.output.replies.last().1 == AnswerView::Done
                &&& after.sockets.get(id) == Some(SocketView { udp_peer: Some(peer), ..socket })
            } else {
                after.output.replies.last().1 is Failed && after.sockets == step.sockets
            }
        }),
{
    let socket = step.sockets.get(id)->0;
    lemma_found(step.sockets, id);
    lemma_with(step.sockets, SocketView { udp_peer: Some(peer), ..socket });
}

/// Once all that waited is written, warnings begin anew; while something waits the next warning
/// comes where it would have come.
pub proof fn law_warnings_begin_anew_when_all_is_written(queue: QueueView, written: int)
    requires
        queue.high.len() > 0,
        0 <= written <= queue.high[0].rest.len(),
    ensures
        queue.consumed(written).high.len() == 0 && queue.low.len() == 0 ==> queue.consumed(
            written,
        ).warn_at == 0,
        queue.consumed(written).high.len() > 0 || queue.low.len() > 0 ==> queue.consumed(
            written,
        ).warn_at == queue.warn_at,
        queue.consumed(written).low == queue.low,
{
}

/// A peer that sends no more is still written to: with something left to write the socket stays,
/// keeps what waits, and takes nothing more in.
pub proof fn law_a_peer_that_sends_no_more_is_written_to(step: NetStep, id: SocketId)
    requires
        step.sockets.wf(),
        step.sockets.get(id) is Some,
    ensures
        ({
            let socket = step.sockets.get(id)->0;
            let after = step.peer_closed(id);
            if outgoing(socket.wb).len() == 0 && socket.wb.is_empty() {
                after == step.closed(id, FarewellView::Closed) && after.sockets.get(id) is None
            } else if outgoing(socket.wb).len() > 0 {
                &&& after.output == step.output
                &&& after.sockets.get(id) is Some
                &&& after.sockets.get(id)->0.state == State::HalfCloseRead
                &&& after.sockets.get(id)->0.wb == socket.wb
                &&& after.sockets.get(id)->0.send_waiters == socket.send_waiters
                &&& !after.sockets.get(id)->0.info().reading
            } else {
                true
            }
        }),
{
    let socket = step.sockets.get(id)->0;
    lemma_found(step.sockets, id);
    lemma_with(step.sockets, SocketView { state: State::HalfCloseRead, ..socket });
    law_a_closed_socket_leaves_nobody_waiting(step, id, FarewellView::Closed);
    if socket.wb.is_empty() {
        assert(outgoing(socket.wb).len() == 0);
    }
}

/// There is one list of descriptions of all sockets.
pub proof fn law_descriptions_are_listed_in_one_way(
    sockets: SocketsView,
    first: Seq<SocketInfoView>,
    second: Seq<SocketInfoView>,
    i: int,
)
    requires
        sockets.described_by(first),
        sockets.described_by(second),
        0 <= i < first.len(),
    ensures
        second.contains(first[i]),
        forall|j: int, k: int|
            0 <= j < k < first.len() ==> (#[trigger] first[j]).id.0 < (#[trigger] first[k]).id.0,
{
    assert(sockets.describes(first[i]));
    let s = choose|s: int|
        0 <= s < sockets.slots.len() && (#[trigger] sockets.slots[s] matches Some(socket)
            && socket.info() == first[i]);
    assert(second.contains(sockets.slots[s]->0.info()));
}

/// Settings are accepted exactly if events, sockets and read buffers are more than none.
pub proof fn law_accepted_settings_leave_room(config: NetConfig)
    ensures
        config.acceptable() <==> config.events >= 1 && config.max_socket >= 1
            && config.min_read_buffer >= 1,
{
}

/// A read buffer that was filled is twice as large the next time, one of which less than half was
/// used is half as large as far as its floor allows, and any other stays as it is.
pub proof fn law_read_buffers_follow_the_traffic(sizer: ReadSizer, read: usize)
    requires
        read <= sizer.size,
        sizer.floor <= sizer.size,
    ensures
        read == sizer.size && sizer.size <= usize::MAX / 2 ==> sizer.observed(read).size
            == sizer.size + sizer.size,
        read < sizer.size && read + read >= sizer.size ==> sizer.observed(read) == sizer,
        read + read < sizer.size && sizer.size > sizer.floor ==> sizer.observed(read).size
            == sizer.size / 2,
        read < sizer.size && sizer.size == sizer.floor ==> sizer.observed(read) == sizer,
        sizer.observed(read).floor == sizer.floor,
{
}

/// Sockets are numbered upwards, and after the last number from 1 again; no socket has the number
/// 0.
pub proof fn law_sockets_are_numbered_upwards(id: u32)
    ensures
        next_id(id) > 0,
        id < u32::MAX ==> next_id(id) == id + 1,
        next_id(u32::MAX) == 1,
{
}

/// What went by on a socket is counted, with the time at which it last did; other counts stay.
pub proof fn law_traffic_is_counted(socket: SocketView, count: usize, now_ms: u64)
    requires
        socket.stat.write_bytes + count <= u64::MAX,
        socket.stat.read_bytes + count <= u64::MAX,
    ensures
        socket.wrote(count as int, now_ms).info().write_bytes == socket.info().write_bytes + count,
        socket.wrote(count as int, now_ms).info().last_write_at_ms == Some(now_ms),
        socket.wrote(count as int, now_ms).info().read_bytes == socket.info().read_bytes,
        socket.wrote(count as int, now_ms).info().last_read_at_ms
            == socket.info().last_read_at_ms,
        socket.took(count, now_ms).info().read_bytes == socket.info().read_bytes + count,
        socket.took(count, now_ms).info().last_read_at_ms == Some(now_ms),
        socket.took(count, now_ms).info().write_bytes == socket.info().write_bytes,
        socket.took(count, now_ms).wb == socket.wb,
{
}

/// A new socket has a number of its own, and the next search begins behind it.
pub proof fn law_a_number_is_not_given_twice_in_a_row(
    sockets: SocketsView,
    owner: u32,
    kind: Kind,
    state: State,
)
    ensures
        sockets.inserted(owner, kind, state).1 matches Some(id) ==> sockets.inserted(
            owner,
            kind,
            state,
        ).0.next == next_id(id.0) && sockets.inserted(owner, kind, state).0.next != id.0,
{
}

} // verus!
