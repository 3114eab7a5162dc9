//! What holds of streams, datagrams and requests on a connection: which bytes leave in which order,
//! what the owner hears, and what the protocol engine is asked for.

use crate::quic::command::{Command, VARINT_BOUND};
use crate::quic::config::QuicConfig;
use crate::quic::event::{QuicConnectionId, QuicListenerId, QuicStreamId, StreamDirection};
use crate::quic::output::Pending;
#[allow(unused_imports)]
use crate::quic::state::{Bound, Consult, Listener};
#[allow(unused_imports)]
use crate::{
    places::{first_place, lemma_first_place, lemma_first_place_is},
    quic::{
        books::{ceil_ms, rank},
        command::AnswerView,
        engine::Asked,
        event::EventView,
        lifecycle::{fresh_link, next_connection, with_bound},
        link::{
            call_answer, first_finish, first_write, has_finish, has_write, lemma_first_finish, lemma_first_write,
            receives, sends, LinkView, QueuedFinish, WriteView,
        },
        outcome::{CallOutcomeView, ProtoInfoView, ReadOutcomeView, WriteOutcomeView},
        output::OutputView,
        perform::call_obstacle,
        serve::{
            datagrams_all, flushed, flushed_all, happen, happen_all, opened_all, read_all, rounds,
            rounds_asked, stream_direction, turn_over, turns_over, FlushTurn, Happening,
        },
        service::{earliest, question, surveyed, Question, Report},
        state::{EndpointView, OutcomeView, StateView},
    },
};
use vstd::prelude::*;

verus! {

/// What a write still has to say on a stream.
pub open spec fn rest_on(write: WriteView, stream: u64) -> Seq<u8> {
    if write.stream == stream {
        write.data.skip(write.offset)
    } else {
        Seq::empty()
    }
}

/// The bytes that wait for a stream, in the order in which they will be offered.
pub open spec fn unsent(writes: Seq<WriteView>, stream: u64) -> Seq<u8>
    decreases writes.len(),
{
    if writes.len() == 0 {
        Seq::empty()
    } else {
        rest_on(writes[0], stream) + unsent(writes.drop_first(), stream)
    }
}

proof fn lemma_unsent_pushed(writes: Seq<WriteView>, write: WriteView, stream: u64)
    ensures
        unsent(writes.push(write), stream) == unsent(writes, stream) + rest_on(write, stream),
    decreases writes.len(),
{
    reveal_with_fuel(unsent, 2);
    let more = writes.push(write);
    if writes.len() == 0 {
        assert(more.drop_first() =~= Seq::<WriteView>::empty());
    } else {
        assert(more.drop_first() =~= writes.drop_first().push(write));
        lemma_unsent_pushed(writes.drop_first(), write, stream);
    }
    assert(unsent(more, stream) =~= unsent(writes, stream) + rest_on(write, stream));
}

/// The bytes that wait for a stream are those of the writes before a place and those from it on.
proof fn lemma_unsent_split(writes: Seq<WriteView>, place: int, stream: u64)
    requires
        0 <= place < writes.len(),
    ensures
        unsent(writes, stream) == unsent(writes.take(place), stream) + rest_on(
            writes[place],
            stream,
        ) + unsent(writes.skip(place + 1), stream),
    decreases writes.len(),
{
    if place == 0 {
        assert(writes.take(0) =~= Seq::<WriteView>::empty());
        assert(writes.skip(1) =~= writes.drop_first());
        assert(unsent(writes.take(0), stream) =~= Seq::<u8>::empty());
    } else {
        let rest = writes.drop_first();
        lemma_unsent_split(rest, place - 1, stream);
        assert(rest.take(place - 1) =~= writes.take(place).drop_first());
        assert(writes.take(place)[0] == writes[0]);
        assert(rest.skip(place) =~= writes.skip(place + 1));
        assert(rest[place - 1] == writes[place]);
    }
    assert(unsent(writes, stream) =~= unsent(writes.take(place), stream) + rest_on(
        writes[place],
        stream,
    ) + unsent(writes.skip(place + 1), stream));
}

/// Writes none of which is for a stream say nothing on it.
proof fn lemma_unsent_none(writes: Seq<WriteView>, stream: u64)
    requires
        forall|i: int| 0 <= i < writes.len() ==> (#[trigger] writes[i]).stream != stream,
    ensures
        unsent(writes, stream).len() == 0,
    decreases writes.len(),
{
    if writes.len() > 0 {
        let rest = writes.drop_first();
        assert forall|i: int| 0 <= i < rest.len() implies (#[trigger] rest[i]).stream != stream by {
            assert(rest[i] == writes[i + 1]);
        }
        lemma_unsent_none(rest, stream);
    }
}

/// The bytes on each stream keep the order of the sends: after a send what waits for the stream is
/// what waited before, followed by what the stream did not take of the new bytes; what waits for
/// any other stream is unchanged. Whoever waits is answered at once only where all was taken.
pub proof fn law_sends_keep_their_order(
    link: LinkView,
    output: OutputView,
    stream: u64,
    data: Seq<u8>,
    written: int,
    pending: Option<Pending>,
    high_water: int,
    other: u64,
)
    requires
        0 <= written <= data.len(),
    ensures
        ({
            let (after, out) = link.wrote_first(
                output,
                stream,
                data,
                written,
                pending,
                high_water,
            );
            &&& unsent(after.writes, stream) == unsent(link.writes, stream) + data.skip(written)
            &&& other != stream ==> unsent(after.writes, other) == unsent(link.writes, other)
            &&& written < data.len() ==> out.replies == output.replies
            &&& written == data.len() ==> out.replies == (match pending {
                Some(pending) => output.replies.push((pending, AnswerView::Done)),
                None => output.replies,
            })
            &&& after.buffered_bytes == link.buffered_bytes + data.len() - written
            &&& after.finishes == link.finishes
            &&& after.owner == link.owner
        }),
{
    let write = WriteView { stream, data, offset: written, pending };
    lemma_unsent_pushed(link.writes, write, stream);
    lemma_unsent_pushed(link.writes, write, other);
    let after = link.wrote_first(output, stream, data, written, pending, high_water).0;
    if written == data.len() {
        assert(unsent(after.writes, stream) =~= unsent(link.writes, stream) + data.skip(written));
    } else {
        assert(unsent(after.writes, other) =~= unsent(link.writes, other) + rest_on(write, other));
        if other != stream {
            assert(unsent(after.writes, other) =~= unsent(link.writes, other));
        }
    }
}

/// The bytes that a stream is offered when its first write is.
pub open spec fn offered(writes: Seq<WriteView>, stream: u64) -> Seq<u8> {
    rest_on(writes[first_write(writes, stream)], stream)
}

/// What is offered are the first bytes that wait for the stream. Taking some removes exactly those,
/// nothing is removed where nothing is taken, and no other stream loses anything. Whoever waits for
/// a write is answered when its last byte is taken.
pub proof fn law_offering_takes_the_first_bytes(
    link: LinkView,
    output: OutputView,
    stream: u64,
    count: int,
    other: u64,
)
    requires
        link.wf(),
        has_write(link.writes, stream),
        0 <= count <= offered(link.writes, stream).len(),
        other != stream,
    ensures
        offered(link.writes, stream).is_prefix_of(unsent(link.writes, stream)),
        ({
            let (after, out) = link.wrote_again(output, stream, WriteOutcomeView::Written(count));
            &&& unsent(link.writes, stream) == offered(link.writes, stream).take(count) + unsent(
                after.writes,
                stream,
            )
            &&& unsent(after.writes, other) == unsent(link.writes, other)
            &&& after.buffered_bytes == link.buffered_bytes - count
            &&& count < offered(link.writes, stream).len() ==> out == output
            &&& count == offered(link.writes, stream).len() ==> out == output.reply_to(
                link.writes[first_write(link.writes, stream)].pending,
                AnswerView::Done,
            )
        }),
        link.wrote_again(output, stream, WriteOutcomeView::Blocked) == (link, output),
{
    let writes = link.writes;
    let place = first_write(writes, stream);
    lemma_first_write(writes, stream);
    let first = writes[place];
    lemma_unsent_split(writes, place, stream);
    lemma_unsent_split(writes, place, other);
    let earlier = writes.take(place);
    assert forall|i: int| 0 <= i < earlier.len() implies (#[trigger] earlier[i]).stream
        != stream by {
        assert(earlier[i] == writes[i]);
    }
    lemma_unsent_none(earlier, stream);
    let rest = first.data.skip(first.offset);
    assert(unsent(earlier, stream) =~= Seq::<u8>::empty());
    assert(unsent(writes, stream) =~= rest + unsent(writes.skip(place + 1), stream));
    let after = link.wrote_again(output, stream, WriteOutcomeView::Written(count)).0.writes;
    if count == first.remaining() {
        assert(after =~= earlier + writes.skip(place + 1));
        lemma_unsent_joined(earlier, writes.skip(place + 1), stream);
        lemma_unsent_joined(earlier, writes.skip(place + 1), other);
        assert(rest.take(count) =~= rest);
        assert(unsent(writes, stream) =~= rest.take(count) + unsent(after, stream));
        assert(unsent(after, other) =~= unsent(writes, other));
    } else {
        let moved = WriteView { offset: first.offset + count, ..first };
        assert(after[place] == moved);
        lemma_unsent_split(after, place, stream);
        lemma_unsent_split(after, place, other);
        assert(after.take(place) =~= earlier);
        assert(after.skip(place + 1) =~= writes.skip(place + 1));
        assert(rest =~= rest.take(count) + moved.data.skip(moved.offset));
        assert(unsent(writes, stream) =~= rest.take(count) + unsent(after, stream));
        assert(unsent(after, other) =~= unsent(writes, other));
    }
}

proof fn lemma_unsent_joined(first: Seq<WriteView>, second: Seq<WriteView>, stream: u64)
    ensures
        unsent(first + second, stream) == unsent(first, stream) + unsent(second, stream),
    decreases first.len(),
{
    if first.len() == 0 {
        assert(first + second =~= second);
        assert(unsent(first + second, stream) =~= unsent(first, stream) + unsent(second, stream));
    } else {
        assert((first + second).drop_first() =~= first.drop_first() + second);
        assert((first + second)[0] == first[0]);
        lemma_unsent_joined(first.drop_first(), second, stream);
        assert(unsent(first + second, stream) =~= unsent(first, stream) + unsent(second, stream));
    }
}

/// A write that the stream refuses goes whole, whoever waits for it is told why, and the other
/// writes stay in their order.
pub proof fn law_a_refused_write_goes_alone(
    link: LinkView,
    output: OutputView,
    stream: u64,
    reason: Seq<char>,
    other: u64,
)
    requires
        link.wf(),
        has_write(link.writes, stream),
        other != stream,
    ensures
        ({
            let (after, out) = link.wrote_again(output, stream, WriteOutcomeView::Failed(reason));
            &&& unsent(link.writes, stream) == offered(link.writes, stream) + unsent(
                after.writes,
                stream,
            )
            &&& unsent(after.writes, other) == unsent(link.writes, other)
            &&& out == output.reply_to(
                link.writes[first_write(link.writes, stream)].pending,
                AnswerView::Failed(reason),
            )
        }),
{
    let writes = link.writes;
    let place = first_write(writes, stream);
    lemma_first_write(writes, stream);
    assert(writes[place].remaining() > 0 && writes[place].offset >= 0);
    let size = offered(writes, stream).len() as int;
    law_offering_takes_the_first_bytes(link, output, stream, size, other);
    assert(offered(writes, stream).take(size) =~= offered(writes, stream));
}

/// Each write is offered while one waits, and a stream takes no more than it is offered.
pub open spec fn fitting(
    link: LinkView,
    output: OutputView,
    stream: u64,
    outcomes: Seq<WriteOutcomeView>,
) -> bool
    decreases outcomes.len(),
{
    if outcomes.len() == 0 {
        true
    } else {
        let before = rounds(link, output, stream, outcomes.drop_last()).0;
        &&& fitting(link, output, stream, outcomes.drop_last())
        &&& before.wf()
        &&& has_write(before.writes, stream)
        &&& outcomes.last() matches WriteOutcomeView::Written(count) ==> 0 <= count <= offered(
            before.writes,
            stream,
        ).len()
        &&& !(outcomes.last() is Failed)
    }
}

/// The bytes that a stream took of what the engine was offered for it.
pub open spec fn taken(asked: Seq<Asked>, stream: u64) -> Seq<u8>
    decreases asked.len(),
{
    if asked.len() == 0 {
        Seq::empty()
    } else {
        taken(asked.drop_last(), stream) + match asked.last() {
            Asked::Write { stream: to, data, outcome } => if to == stream {
                match outcome {
                    WriteOutcomeView::Written(count) => data.take(count),
                    _ => Seq::empty(),
                }
            } else {
                Seq::empty()
            },
            _ => Seq::empty(),
        }
    }
}

/// However often a stream is offered its writes, the bytes that the engine took and those that are
/// left are, one behind the other, the bytes that waited: none is lost, none comes twice, and none
/// overtakes another.
pub proof fn law_a_stream_carries_its_bytes_in_order(
    link: LinkView,
    output: OutputView,
    stream: u64,
    outcomes: Seq<WriteOutcomeView>,
)
    requires
        fitting(link, output, stream, outcomes),
    ensures
        unsent(link.writes, stream) == taken(
            rounds_asked(link, output, stream, outcomes),
            stream,
        ) + unsent(rounds(link, output, stream, outcomes).0.writes, stream),
    decreases outcomes.len(),
{
    if outcomes.len() > 0 {
        let earlier = outcomes.drop_last();
        law_a_stream_carries_its_bytes_in_order(link, output, stream, earlier);
        let (before, out) = rounds(link, output, stream, earlier);
        let asked = rounds_asked(link, output, stream, outcomes);
        let other: u64 = if stream == 0 {
            1
        } else {
            0
        };
        lemma_first_write(before.writes, stream);
        let first = before.writes[first_write(before.writes, stream)];
        assert(offered(before.writes, stream) == first.data.skip(first.offset));
        assert(asked.drop_last() =~= rounds_asked(link, output, stream, earlier));
        let count = match outcomes.last() {
            WriteOutcomeView::Written(count) => count,
            _ => 0,
        };
        law_offering_takes_the_first_bytes(before, out, stream, count, other);
        assert(unsent(link.writes, stream) =~= taken(asked, stream) + unsent(
            rounds(link, output, stream, outcomes).0.writes,
            stream,
        ));
    } else {
        assert(unsent(link.writes, stream) =~= taken(
            rounds_asked(link, output, stream, outcomes),
            stream,
        ) + unsent(rounds(link, output, stream, outcomes).0.writes, stream));
    }
}

/// A stream is finished only behind its last byte: its finish is carried out in a turn only when
/// nothing waits for it any more, and then it is, and whoever asked for it hears what came of it.
pub proof fn law_a_finish_follows_the_last_byte(
    link: LinkView,
    output: OutputView,
    turn: FlushTurn,
    low_water: int,
)
    requires
        turn_over(link, output, turn),
    ensures
        ({
            let before = rounds(link, output, turn.stream, turn.writes);
            let after = flushed(link, output, turn, low_water);
            &&& turn.finish is Some ==> unsent(before.0.writes, turn.stream).len() == 0
            &&& turn.finish is Some ==> has_finish(before.0.finishes, turn.stream)
                && after.1.replies.len() == before.1.replies.len() + 1
                && after.1.replies.last().1 == call_answer(turn.finish->0)
                && after.0.finishes.len() == before.0.finishes.len() - 1
            &&& turn.finish is None && has_finish(before.0.finishes, turn.stream) ==> has_write(
                before.0.writes,
                turn.stream,
            )
            &&& turn.finish is None ==> after.0.finishes == before.0.finishes
            &&& after.0.writes == before.0.writes
        }),
{
    let before = rounds(link, output, turn.stream, turn.writes);
    if turn.finish is Some {
        assert forall|i: int| 0 <= i < before.0.writes.len() implies (
        #[trigger] before.0.writes[i]).stream != turn.stream by {
            if before.0.writes[i].stream == turn.stream {
                assert(has_write(before.0.writes, turn.stream));
            }
        }
        lemma_unsent_none(before.0.writes, turn.stream);
        lemma_first_finish(before.0.finishes, turn.stream);
    }
}

/// A request to finish a stream that has bytes waiting is not put to the engine and not answered
/// yet, but noted; on one that has none it is put to the engine.
pub proof fn law_a_finish_waits_for_the_bytes(
    state: StateView,
    config: QuicConfig,
    pending: Pending,
    id: QuicConnectionId,
    stream: QuicStreamId,
    outcome: OutcomeView,
    output: OutputView,
)
    requires
        state.obstacle(id, pending.source) is None,
        stream.0 < VARINT_BOUND,
        !has_finish(state.link(id).finishes, stream.0),
    ensures
        ({
            let finish = Command::Finish { id, stream };
            let consult = state.consult(config, pending, finish);
            let after = state.settle(config, pending, finish, outcome, output);
            if has_write(state.link(id).writes, stream.0) {
                &&& consult is Nothing
                &&& after.output == output
                &&& has_finish(after.state.links[state.link_place(id)].finishes, stream.0)
                &&& after.state.links[state.link_place(id)].writes == state.link(id).writes
            } else {
                &&& consult matches Consult::Finish { place, stream: asked } && asked == stream.0
                &&& after.state == state
                &&& outcome is Call ==> after.output == output.reply(
                    pending,
                    call_answer(outcome->Call_0),
                )
            }
        }),
{
    lemma_first_place(state.links, |link: LinkView| link.id == id);
    let finish = Command::Finish { id, stream };
    let after = state.settle(config, pending, finish, outcome, output);
    if has_write(state.link(id).writes, stream.0) {
        let noted = state.link(id).finishes.push(QueuedFinish { stream: stream.0, pending });
        assert(noted[state.link(id).finishes.len() as int].stream == stream.0);
        assert(after.state.links[state.link_place(id)].finishes == noted);
    }
}

/// The bytes that events tell an owner of a stream.
pub open spec fn delivered(
    events: Seq<(u32, EventView)>,
    owner: u32,
    id: QuicConnectionId,
    stream: QuicStreamId,
) -> Seq<u8>
    decreases events.len(),
{
    if events.len() == 0 {
        Seq::empty()
    } else {
        delivered(events.drop_last(), owner, id, stream) + match events.last().1 {
            EventView::StreamData { id: of, stream: on, data } => if events.last().0 == owner && of
                == id && on == stream {
                data
            } else {
                Seq::empty()
            },
            _ => Seq::empty(),
        }
    }
}

/// The bytes that reads gave.
pub open spec fn read_bytes(reads: Seq<ReadOutcomeView>) -> Seq<u8>
    decreases reads.len(),
{
    if reads.len() == 0 {
        Seq::empty()
    } else {
        read_bytes(reads.drop_last()) + match reads.last() {
            ReadOutcomeView::Data(data) => data,
            _ => Seq::empty(),
        }
    }
}

/// What is read from a stream reaches the owner of a started connection in the order in which it
/// was read, all of it and once, under the number of the connection and of the stream; nobody is
/// answered by it, and what waits to be sent is not touched.
pub proof fn law_read_bytes_reach_the_owner_in_order(
    link: LinkView,
    output: OutputView,
    stream: u64,
    reads: Seq<ReadOutcomeView>,
)
    requires
        link.started,
    ensures
        ({
            let (after, out) = read_all(link, output, stream, reads);
            &&& delivered(out.events, link.owner, link.id, QuicStreamId(stream)) == delivered(
                output.events,
                link.owner,
                link.id,
                QuicStreamId(stream),
            ) + read_bytes(reads)
            &&& out.replies == output.replies
            &&& out.packets == output.packets
            &&& after == link
        }),
    decreases reads.len(),
{
    let to = QuicStreamId(stream);
    if reads.len() > 0 {
        let earlier = reads.drop_last();
        law_read_bytes_reach_the_owner_in_order(link, output, stream, earlier);
        let (before, out) = read_all(link, output, stream, earlier);
        let told = before.read(out, stream, reads.last()).1;
        if told.events.len() > out.events.len() {
            assert(told.events.drop_last() =~= out.events);
        }
    }
    let (after, out) = read_all(link, output, stream, reads);
    assert(delivered(out.events, link.owner, link.id, to) =~= delivered(
        output.events,
        link.owner,
        link.id,
        to,
    ) + read_bytes(reads));
}

/// The end of a stream and the code with which the peer gave it up are told to the owner as they
/// are; a stream that gives nothing tells nothing.
pub proof fn law_the_end_of_a_stream_is_told(
    link: LinkView,
    output: OutputView,
    stream: u64,
    code: u64,
)
    requires
        link.started,
    ensures
        link.read(output, stream, ReadOutcomeView::End).1.events == output.events.push(
            (link.owner, EventView::ReceiveFinished { id: link.id, stream: QuicStreamId(stream) }),
        ),
        link.read(output, stream, ReadOutcomeView::Reset(code)).1.events == output.events.push(
            (
                link.owner,
                EventView::StreamReset {
                    id: link.id,
                    stream: QuicStreamId(stream),
                    error_code: code,
                },
            ),
        ),
        link.read(output, stream, ReadOutcomeView::Blocked) == (link, output),
        link.read(output, stream, ReadOutcomeView::Closed) == (link, output),
        crate::quic::serve::happen(
            link,
            output,
            Happening::Stopped { stream, error_code: code },
            0,
        ).1.events == output.events.push(
            (
                link.owner,
                EventView::StreamStopped {
                    id: link.id,
                    stream: QuicStreamId(stream),
                    error_code: code,
                },
            ),
        ),
        crate::quic::serve::happen(link, output, Happening::Finished { stream }, 0).1.events
            == output.events.push(
            (link.owner, EventView::SendFinished { id: link.id, stream: QuicStreamId(stream) }),
        ),
        stream_direction(true) != stream_direction(false),
{
}

/// Datagrams that come are told one by one, whole, once and in order.
pub proof fn law_datagrams_are_told_whole(link: LinkView, output: OutputView, data: Seq<Seq<u8>>)
    requires
        link.started,
    ensures
        datagrams_all(link, output, data).0 == link,
        datagrams_all(link, output, data).1.events == output.events + data.map_values(
            |one: Seq<u8>| (link.owner, EventView::Datagram { id: link.id, data: one }),
        ),
        datagrams_all(link, output, data).1.replies == output.replies,
    decreases data.len(),
{
    let told = |one: Seq<u8>| (link.owner, EventView::Datagram { id: link.id, data: one });
    if data.len() > 0 {
        law_datagrams_are_told_whole(link, output, data.drop_last());
    }
    assert(datagrams_all(link, output, data).1.events =~= output.events + data.map_values(told));
}

/// What happens on a connection that is not started is kept, and nobody is told of it before.
pub proof fn law_nothing_is_told_before_the_start(
    link: LinkView,
    output: OutputView,
    event: EventView,
)
    ensures
        link.started ==> link.tell(output, event).0 == link && link.tell(output, event).1.events
            == output.events.push((link.owner, event)),
        !link.started ==> link.tell(output, event).1 == output && link.tell(
            output,
            event,
        ).0.queued_events == link.queued_events.push(event),
{
}

/// A connection that is up is told to its owner with its peer, and whoever asked for it gets its
/// number; from then on it is known.
pub proof fn law_a_connection_that_is_up_is_told(
    link: LinkView,
    output: OutputView,
    peer: Seq<char>,
)
    ensures
        ({
            let (after, out) = link.connected(output, peer);
            &&& after.announced
            &&& after.connect_pending is None
            &&& out.events.len() == output.events.len() + 1
            &&& out.events.drop_last() == output.events
            &&& out.events.last().0 == link.owner
            &&& out.events.last().1 == (EventView::Connected {
                id: link.id,
                listener: link.listener,
                peer,
                alpn: link.alpn,
            })
            &&& link.connect_pending matches Some(pending) ==> out.replies == output.replies.push(
                (pending, AnswerView::Connection(link.id)),
            )
            &&& link.connect_pending is None ==> out.replies == output.replies
        }),
{
    assert(link.connected(output, peer).1.events.drop_last() =~= output.events);
}

/// The owner of a connection that the peer has closed hears the peer's code and reason; of one that
/// was lost otherwise it hears why.
pub proof fn law_a_close_is_told_with_its_code(
    link: LinkView,
    output: OutputView,
    reason: Seq<char>,
    code: u64,
    text: Seq<u8>,
)
    requires
        link.announced,
    ensures
        link.lost(output, reason, Some((code, text))).1.events == output.events.push(
            (link.owner, EventView::Close { id: link.id, error_code: Some(code), reason: text }),
        ),
        link.lost(output, reason, None).1.events == output.events.push(
            (link.owner, EventView::Error { id: link.id, reason }),
        ),
        link.lost(output, reason, None).0.writes.len() == 0,
        link.lost(output, reason, None).0.finishes.len() == 0,
{
    crate::quic::laws::law_the_end_is_told_to_those_who_know(
        link,
        output,
        reason,
        Some((code, text)),
    );
    crate::quic::laws::law_the_end_is_told_to_those_who_know(link, output, reason, None);
    let closed = link.lost(output, reason, Some((code, text))).1.events;
    let failed = link.lost(output, reason, None).1.events;
    lemma_lost_event(link, output, reason, Some((code, text)));
    lemma_lost_event(link, output, reason, None);
    assert(closed =~= output.events.push(
        (link.owner, EventView::Close { id: link.id, error_code: Some(code), reason: text }),
    ));
    assert(failed =~= output.events.push(
        (link.owner, EventView::Error { id: link.id, reason }),
    ));
}

proof fn lemma_lost_event(
    link: LinkView,
    output: OutputView,
    reason: Seq<char>,
    application: Option<(u64, Seq<u8>)>,
)
    requires
        link.announced,
    ensures
        link.lost(output, reason, application).1.events.last().1 == (match application {
            Some((code, text)) => EventView::Close {
                id: link.id,
                error_code: Some(code),
                reason: text,
            },
            None => EventView::Error { id: link.id, reason },
        }),
{
    let answered = output.reply_to(link.connect_pending, AnswerView::Failed(reason));
    let event = match application {
        Some((code, text)) => EventView::Close {
            id: link.id,
            error_code: Some(code),
            reason: text,
        },
        None => EventView::Error { id: link.id, reason },
    };
    let told = answered.event(link.owner, event);
    lemma_refusals_keep_events(told, link.writes, link.finishes, "QUIC 连接已关闭"@);
    assert(link.lost(output, reason, application).1.events == told.events);
}

proof fn lemma_refusals_keep_events(
    output: OutputView,
    writes: Seq<WriteView>,
    finishes: Seq<QueuedFinish>,
    reason: Seq<char>,
)
    ensures
        crate::quic::link::refuse_finishes(
            crate::quic::link::refuse_writes(output, writes, reason),
            finishes,
            reason,
        ).events == output.events,
    decreases writes.len() + finishes.len(),
{
    if finishes.len() > 0 {
        lemma_refusals_keep_events(output, writes, finishes.drop_last(), reason);
    } else if writes.len() > 0 {
        lemma_refusals_keep_events(output, writes.drop_last(), finishes, reason);
    }
}

/// An owner is warned when what waits reaches the high water mark, with the bytes that wait, and
/// not again before it was down at the low water mark.
pub proof fn law_an_owner_is_warned_once(
    link: LinkView,
    output: OutputView,
    stream: u64,
    data: Seq<u8>,
    written: int,
    high_water: int,
    low_water: int,
)
    requires
        link.started,
        0 <= written < data.len(),
        low_water < high_water,
    ensures
        ({
            let (after, out) = link.wrote_first(output, stream, data, written, None, high_water);
            let waits = link.buffered_bytes + data.len() - written;
            &&& waits >= high_water && !link.warned ==> after.warned && out.events
                == output.events.push(
                (link.owner, EventView::Warning { id: link.id, buffered_bytes: waits }),
            )
            &&& waits < high_water || link.warned ==> after.warned == link.warned && out.events
                == output.events
        }),
        link.relaxed(low_water).warned <==> link.warned && link.buffered_bytes > low_water,
        link.relaxed(low_water).writes == link.writes,
        link.relaxed(low_water).buffered_bytes == link.buffered_bytes,
{
}

/// Only the service that has started a connection may use it.
pub proof fn law_only_its_owner_uses_a_connection(
    state: StateView,
    id: QuicConnectionId,
    caller: u32,
)
    ensures
        state.obstacle(id, caller) is None <==> state.has_link(id) && state.link(id).owner == caller
            && state.link(id).started,
{
}

/// A request to send puts all bytes of the request to the stream that it names, of the connection
/// that it names; what the stream does not take waits behind what waits for the stream already.
pub proof fn law_a_send_request_is_carried_out(
    state: StateView,
    config: QuicConfig,
    pending: Pending,
    id: QuicConnectionId,
    stream: QuicStreamId,
    data: Vec<u8>,
    wait: bool,
    now: u64,
    count: int,
    output: OutputView,
)
    requires
        state.obstacle(id, pending.source) is None,
        stream.0 < VARINT_BOUND,
        data@.len() <= config.max_chunk_size,
        !has_finish(state.link(id).finishes, stream.0),
        state.links.len() <= usize::MAX,
        0 <= count <= data@.len(),
    ensures
        ({
            let send = Command::Send { id, stream, data, wait };
            let outcome = OutcomeView::Write(WriteOutcomeView::Written(count));
            let consult = state.consult(config, pending, send);
            let after = state.settle(config, pending, send, outcome, output);
            let place = state.link_place(id);
            &&& question(consult, send, now, outcome) == Question::One(
                place,
                Asked::Write {
                    stream: stream.0,
                    data: data@,
                    outcome: WriteOutcomeView::Written(count),
                },
            )
            &&& state.links[place].id == id
            &&& unsent(after.state.links[place].writes, stream.0) == unsent(
                state.links[place].writes,
                stream.0,
            ) + data@.skip(count)
            &&& after.socket == Some(state.links[place].endpoint_socket)
            &&& count == data@.len() && wait ==> after.output.replies == output.replies.push(
                (pending, AnswerView::Done),
            )
            &&& count < data@.len() || !wait ==> after.output.replies == output.replies
        }),
{
    lemma_first_place(state.links, |link: LinkView| link.id == id);
    let waiter = if wait {
        Some(pending)
    } else {
        None
    };
    law_sends_keep_their_order(
        state.link(id),
        output,
        stream.0,
        data@,
        count,
        waiter,
        config.write_high_water as int,
        stream.0,
    );
}

/// Requests to open, reset, stop, send a datagram or close are put to the connection that they
/// name, with the stream, the code, the bytes and the reason that they name, and what the engine
/// answers is what the caller hears.
pub proof fn law_requests_are_put_as_they_are(
    state: StateView,
    config: QuicConfig,
    pending: Pending,
    id: QuicConnectionId,
    stream: QuicStreamId,
    code: u64,
    bytes: Vec<u8>,
    now: u64,
    opened: Option<u64>,
    call: CallOutcomeView,
    output: OutputView,
)
    requires
        state.obstacle(id, pending.source) is None,
        stream.0 < VARINT_BOUND,
        code < VARINT_BOUND,
        state.links.len() <= usize::MAX,
    ensures
        ({
            let place = state.link_place(id);
            let both = Command::OpenBi(id);
            let one = Command::OpenUni(id);
            let reset = Command::Reset { id, stream, error_code: code };
            let stop = Command::Stop { id, stream, error_code: code };
            let datagram = Command::SendDatagram { id, data: bytes };
            let close = Command::Close { id, error_code: code, reason: bytes };
            let answer = OutcomeView::Call(call);
            let found = OutcomeView::Opened(opened);
            &&& state.links[place].id == id
            &&& question(state.consult(config, pending, both), both, now, found) == Question::One(
                place,
                Asked::Open { bidirectional: true, stream: opened },
            )
            &&& question(state.consult(config, pending, one), one, now, found) == Question::One(
                place,
                Asked::Open { bidirectional: false, stream: opened },
            )
            &&& state.settle(config, pending, both, found, output).output.replies
                == output.replies.push(
                (
                    pending,
                    match opened {
                        Some(number) => AnswerView::Stream(QuicStreamId(number)),
                        None => AnswerView::Failed("对端 stream 配额已用完"@),
                    },
                ),
            )
            &&& question(state.consult(config, pending, reset), reset, now, answer)
                == Question::One(place, Asked::Reset { stream: stream.0, code, outcome: call })
            &&& question(state.consult(config, pending, stop), stop, now, answer) == Question::One(
                place,
                Asked::Stop { stream: stream.0, code, outcome: call },
            )
            &&& question(state.consult(config, pending, datagram), datagram, now, answer)
                == Question::One(place, Asked::Send { data: bytes@, outcome: call })
            &&& question(state.consult(config, pending, close), close, now, OutcomeView::Nothing)
                == Question::One(place, Asked::Close { now, code, reason: bytes@ })
            &&& heard(state, config, pending, reset, answer, output, call)
            &&& heard(state, config, pending, stop, answer, output, call)
            &&& heard(state, config, pending, datagram, answer, output, call)
            &&& state.settle(
                config,
                pending,
                close,
                OutcomeView::Nothing,
                output,
            ).output.replies == output.replies.push((pending, AnswerView::Done))
        }),
{
    lemma_first_place(state.links, |link: LinkView| link.id == id);
}

/// A caller hears what the engine answered, the books stay as they are, and the connection's socket
/// is driven.
pub open spec fn heard(
    state: StateView,
    config: QuicConfig,
    pending: Pending,
    command: Command,
    outcome: OutcomeView,
    output: OutputView,
    call: CallOutcomeView,
) -> bool {
    let after = state.settle(config, pending, command, outcome, output);
    &&& after.state == state
    &&& after.output.events == output.events
    &&& after.output.replies.len() == output.replies.len() + 1
    &&& after.output.replies.drop_last() =~= output.replies
    &&& after.output.replies.last().0 == pending
    &&& match call {
        CallOutcomeView::Done => after.output.replies.last().1 == AnswerView::Done,
        CallOutcomeView::Failed(reason) => after.output.replies.last().1 == AnswerView::Failed(
            reason,
        ),
    }
    &&& after.socket is Some
}

/// A caller who starts a connection becomes its owner, gets everything that waited, once and in
/// order, and is told of everything from then on.
pub proof fn law_a_start_hands_a_connection_over(
    state: StateView,
    pending: Pending,
    id: QuicConnectionId,
    output: OutputView,
)
    requires
        state.has_link(id),
    ensures
        ({
            let after = state.settle_start(pending, id, output);
            let place = state.link_place(id);
            &&& after.state.links[place].owner == pending.source
            &&& after.state.links[place].started
            &&& after.state.links[place].queued_events.len() == 0
            &&& after.state.links[place].writes == state.link(id).writes
            &&& after.state.links.len() == state.links.len()
            &&& after.output.events.len() == output.events.len() + state.link(
                id,
            ).queued_events.len()
            &&& forall|i: int|
                0 <= i < state.link(id).queued_events.len() ==> #[trigger] after.output.events[
                output.events.len() + i] == (pending.source, state.link(id).queued_events[i])
            &&& after.output.replies == output.replies.push((pending, AnswerView::Done))
        }),
{
    lemma_first_place(state.links, |link: LinkView| link.id == id);
}

/// A listener that is closed takes nobody in any more; the connections that it took stay, and its
/// socket is closed only where there are none.
pub proof fn law_a_closed_listener_keeps_its_connections(
    state: StateView,
    pending: Pending,
    id: crate::quic::event::QuicListenerId,
    output: OutputView,
)
    requires
        state.listener_place(id, pending.source) < state.endpoints.len(),
    ensures
        ({
            let after = state.settle_close_listener(pending, id, output);
            let place = state.listener_place(id, pending.source);
            let endpoint = state.endpoints[place];
            &&& after.state.links == state.links
            &&& after.output.replies == output.replies.push((pending, AnswerView::Done))
            &&& endpoint.connections.len() > 0 ==> {
                &&& after.state.endpoints.len() == state.endpoints.len()
                &&& after.state.endpoints[place].listener is None
                &&& after.state.endpoints[place].connections == endpoint.connections
                &&& after.output.close_sockets == output.close_sockets
            }
            &&& endpoint.connections.len() == 0 ==> {
                &&& after.state.endpoints == state.endpoints.remove(place)
                &&& after.output.close_sockets == output.close_sockets.push(endpoint.socket)
            }
        }),
{
    lemma_first_place(
        state.endpoints,
        |endpoint: EndpointView| endpoint.listener == Some(Listener { id, owner: pending.source }),
    );
}

/// A connection that a listener lets in has a number of its own, belongs to the listener's owner,
/// is of the listener's socket, and waits to be started; no other connection is touched.
pub proof fn law_an_accepted_connection_waits_to_be_started(
    state: StateView,
    place: int,
    handle: usize,
    other: QuicConnectionId,
)
    requires
        state.wf(),
        0 <= place < state.endpoints.len(),
        state.endpoints[place].listener is Some,
        state.next_connection < u64::MAX,
        forall|i: int|
            0 <= i < state.links.len() ==> (#[trigger] state.links[i]).id.0
                <= state.next_connection,
        state.has_link(other),
    ensures
        ({
            let after = state.with_accepted(place, handle);
            let id = QuicConnectionId((state.next_connection + 1) as u64);
            let endpoint = state.endpoints[place];
            &&& !state.has_link(id)
            &&& after.has_link(id)
            &&& after.link(id).owner == endpoint.listener->0.owner
            &&& after.link(id).listener == Some(endpoint.listener->0.id)
            &&& after.link(id).endpoint_socket == endpoint.socket
            &&& !after.link(id).started
            &&& !after.link(id).announced
            &&& after.link(id).writes.len() == 0
            &&& after.links.len() == state.links.len() + 1
            &&& after.has_link(other)
            &&& after.link(other) == state.link(other)
            &&& after.endpoints[place].connections.contains(Bound { handle, id })
        }),
{
    let id = QuicConnectionId((state.next_connection + 1) as u64);
    let after = state.with_accepted(place, handle);
    let endpoint = state.endpoints[place];
    lemma_newest(
        state,
        fresh_link(
            id,
            endpoint.socket,
            endpoint.listener->0.owner,
            Some(endpoint.listener->0.id),
            endpoint.local,
            false,
            None,
        ),
        other,
    );
    let bound = Bound { handle, id };
    let same = |b: Bound| b.handle == handle;
    lemma_first_place(endpoint.connections, same);
    let entered = with_bound(endpoint.connections, bound);
    let found = first_place(endpoint.connections, same);
    assert(entered[found] == bound);
    assert(after.endpoints[place].connections == entered);
}

/// A number above all others is entered behind all others.
proof fn lemma_newest(state: StateView, link: LinkView, other: QuicConnectionId)
    requires
        forall|i: int|
            0 <= i < state.links.len() ==> (#[trigger] state.links[i]).id.0 < link.id.0,
        state.has_link(other),
    ensures
        !state.has_link(link.id),
        state.with_new_link(link).links == state.links.push(link),
        state.with_new_link(link).has_link(link.id),
        state.with_new_link(link).link(link.id) == link,
        state.with_new_link(link).has_link(other),
        state.with_new_link(link).link(other) == state.link(other),
{
    let above = |l: LinkView| l.id.0 >= link.id.0;
    lemma_first_place_is(state.links, above, state.links.len() as int);
    assert(rank(state.links, link.id) == state.links.len());
    let after = state.with_new_link(link);
    assert(after.links =~= state.links.push(link));
    let is_new = |l: LinkView| l.id == link.id;
    lemma_first_place_is(state.links, is_new, state.links.len() as int);
    lemma_first_place_is(after.links, is_new, state.links.len() as int);
    let is_other = |l: LinkView| l.id == other;
    lemma_first_place(state.links, is_other);
    let at = state.link_place(other);
    assert forall|k: int| 0 <= k < at implies !is_other(#[trigger] after.links[k]) by {
        assert(after.links[k] == state.links[k]);
    }
    assert(after.links[at] == state.links[at]);
    lemma_first_place_is(after.links, is_other, at);
}

/// A connection that a caller asks for belongs to the caller, is started, and keeps the caller
/// waiting until it is up or lost.
pub proof fn law_a_connection_that_is_asked_for_keeps_its_caller(
    state: StateView,
    pending: Pending,
    socket: u32,
    local: Option<Seq<char>>,
    handle: usize,
    other: QuicConnectionId,
)
    requires
        state.wf(),
        state.next_connection < u64::MAX,
        forall|i: int|
            0 <= i < state.links.len() ==> (#[trigger] state.links[i]).id.0
                <= state.next_connection,
        state.has_link(other),
    ensures
        ({
            let after = state.with_connected(pending, socket, local, handle);
            let id = QuicConnectionId((state.next_connection + 1) as u64);
            &&& !state.has_link(id)
            &&& after.has_link(id)
            &&& after.link(id).owner == pending.source
            &&& after.link(id).started
            &&& after.link(id).connect_pending == Some(pending)
            &&& after.link(id).listener is None
            &&& after.link(id).endpoint_socket == socket
            &&& after.has_link(other)
            &&& after.link(other) == state.link(other)
        }),
{
    let id = QuicConnectionId((state.next_connection + 1) as u64);
    let middle = StateView { next_connection: id.0, ..state }.with_endpoint(
        crate::quic::lifecycle::fresh_endpoint(socket, local, None, seq![Bound { handle, id }]),
    );
    assert(middle.links == state.links);
    lemma_newest(
        middle,
        fresh_link(id, socket, pending.source, None, local, true, Some(pending)),
        other,
    );
}

/// The description of a connection says how it is and how many bytes wait.
pub proof fn law_a_description_is_that_of_the_connection(link: LinkView, proto: ProtoInfoView)
    ensures
        link.info(proto).id == link.id,
        link.info(proto).owner == link.owner,
        link.info(proto).started == link.started,
        link.info(proto).peer == proto.peer,
        link.info(proto).buffered_bytes == link.buffered_bytes,
        proto.closed ==> link.info(proto).state == "closed"@,
        !proto.closed && proto.handshaking ==> link.info(proto).state == "handshaking"@,
        !proto.closed && !proto.handshaking ==> link.info(proto).state == "connected"@,
        proto.rtt_nanos / 1000 <= u64::MAX ==> link.info(proto).rtt_micros == proto.rtt_nanos
            / 1000,
{
}

/// Two sides of a connection agree on their streams: what one sends on the other receives on, and a
/// stream that both use is sent and received on by both.
pub proof fn law_the_sides_agree_on_their_streams(stream: u64)
    ensures
        sends(true, stream) == receives(false, stream),
        sends(false, stream) == receives(true, stream),
        sends(true, stream) || sends(false, stream),
        sends(true, stream) && sends(false, stream) <==> (stream / 2) % 2 == 0,
        (stream / 2) % 2 == 1 && stream % 2 == 1 ==> sends(true, stream),
        (stream / 2) % 2 == 1 && stream % 2 == 0 ==> sends(false, stream),
{
}

/// The earlier of two times is one of them and not later than either.
pub proof fn law_the_earlier_time_is_found(a: Option<u64>, b: Option<u64>)
    ensures
        earliest(a, b) == a || earliest(a, b) == b,
        a matches Some(x) ==> (earliest(a, b) matches Some(first) && first <= x),
        b matches Some(y) ==> (earliest(a, b) matches Some(first) && first <= y),
{
}

/// A timer is set for at least one millisecond, and long enough that it does not go off before its
/// deadline by as much as a microsecond.
pub proof fn law_a_timer_is_not_early(nanos: u128)
    requires
        nanos / 1_000_000 < u64::MAX,
    ensures
        ceil_ms(nanos) >= 1,
        ceil_ms(nanos) as int * 1000 >= nanos as int / 1000,
        nanos > 1_000_000 ==> (ceil_ms(nanos) as int - 1) * 1000 < nanos as int / 1000,
{
}

/// An endpoint whose deadline has changed gets a new timer under a new number, so that the earlier
/// one is void; an endpoint that neither listens nor has connections is closed.
pub proof fn law_a_changed_deadline_sets_a_new_timer(
    state: StateView,
    socket: u32,
    deadline: Option<u64>,
    now: u64,
    output: OutputView,
)
    requires
        state.endpoint_place(socket) < state.endpoints.len(),
        state.endpoints[state.endpoint_place(socket)].timer_generation < u64::MAX,
    ensures
        ({
            let place = state.endpoint_place(socket);
            let endpoint = state.endpoints[place];
            let (after, out) = state.rested(socket, deadline, now, output);
            let idle = endpoint.listener is None && endpoint.connections.len() == 0;
            &&& idle ==> out.close_sockets == output.close_sockets.push(socket)
                && after.endpoints == state.endpoints.remove(place)
            &&& !idle ==> out.close_sockets == output.close_sockets && after.endpoints.len()
                == state.endpoints.len() && after.endpoints[place].timer_deadline == deadline
                && after.endpoints[place].connections == endpoint.connections
            &&& !idle && endpoint.timer_deadline != deadline ==> !after.timer_due(
                socket,
                endpoint.timer_generation,
            )
            &&& !idle && endpoint.timer_deadline != deadline && deadline is Some ==> (
            out.timer matches Some(arm) && arm.socket == socket && after.timer_due(
                socket,
                arm.generation,
            ))
            &&& !idle && endpoint.timer_deadline == deadline ==> out.timer == output.timer
            &&& after.links == state.links
            &&& out.events == output.events
            &&& out.replies == output.replies
        }),
{
    let holds = |endpoint: EndpointView| endpoint.socket == socket;
    lemma_first_place(state.endpoints, holds);
    let place = state.endpoint_place(socket);
    let endpoint = state.endpoints[place];
    let (after, out) = state.rested(socket, deadline, now, output);
    if !(endpoint.listener is None && endpoint.connections.len() == 0) {
        assert forall|k: int| 0 <= k < place implies !holds(#[trigger] after.endpoints[k]) by {
            assert(after.endpoints[k] == state.endpoints[k]);
        }
        lemma_first_place_is(after.endpoints, holds, place);
    }
}

/// Turns are taken one after the other: a turn more finds the connection as the turns before have
/// left it, and no turn leaves it as it was.
pub proof fn law_turns_are_taken_one_after_the_other(
    link: LinkView,
    output: OutputView,
    turns: Seq<FlushTurn>,
    turn: FlushTurn,
    low_water: int,
)
    ensures
        ({
            let (l, o) = flushed_all(link, output, turns, low_water);
            flushed_all(link, output, turns.push(turn), low_water) == flushed(
                l,
                o,
                turn,
                low_water,
            )
        }),
        flushed_all(link, output, Seq::empty(), low_water) == (link, output),
        turns_over(link, output, Seq::empty(), low_water),
        turns_over(link, output, turns.push(turn), low_water) <==> turns_over(
            link,
            output,
            turns,
            low_water,
        ) && turn_over(
            flushed_all(link, output, turns, low_water).0,
            flushed_all(link, output, turns, low_water).1,
            turn,
        ),
{
    assert(turns.push(turn).drop_last() =~= turns);
}

/// Reports of the engine are seen to one after the other, each of them on what those before have
/// left.
pub proof fn law_reports_are_seen_to_one_after_the_other(
    link: LinkView,
    output: OutputView,
    happenings: Seq<Happening>,
    happening: Happening,
    low_water: int,
)
    ensures
        ({
            let (l, o) = happen_all(link, output, happenings, low_water);
            happen_all(link, output, happenings.push(happening), low_water) == happen(
                l,
                o,
                happening,
                low_water,
            )
        }),
        happen_all(link, output, Seq::empty(), low_water) == (link, output),
{
    assert(happenings.push(happening).drop_last() =~= happenings);
}

/// Streams that the peer has opened are told of and read one after the other; each is told of
/// before anything that it carried.
pub proof fn law_opened_streams_are_told_one_after_the_other(
    link: LinkView,
    output: OutputView,
    bidirectional: bool,
    streams: Seq<(u64, Seq<ReadOutcomeView>)>,
    stream: u64,
    reads: Seq<ReadOutcomeView>,
)
    ensures
        ({
            let (l, o) = opened_all(link, output, bidirectional, streams);
            let (m, p) = l.tell(
                o,
                EventView::StreamOpened {
                    id: l.id,
                    stream: QuicStreamId(stream),
                    direction: if bidirectional {
                        StreamDirection::Bidirectional
                    } else {
                        StreamDirection::Unidirectional
                    },
                },
            );
            opened_all(link, output, bidirectional, streams.push((stream, reads))) == read_all(
                m,
                p,
                stream,
                reads,
            )
        }),
        opened_all(link, output, bidirectional, Seq::empty()) == (link, output),
{
    assert(streams.push((stream, reads)).drop_last() =~= streams);
}

/// What is found first is the first write to the stream: it is one, and none before it is.
pub proof fn law_the_first_write_of_a_stream_is_found(writes: Seq<WriteView>, stream: u64)
    ensures
        0 <= first_write(writes, stream) <= writes.len(),
        has_write(writes, stream) <==> first_write(writes, stream) < writes.len(),
        first_write(writes, stream) < writes.len() ==> writes[first_write(writes, stream)].stream
            == stream,
        forall|i: int|
            0 <= i < first_write(writes, stream) ==> (#[trigger] writes[i]).stream != stream,
    decreases writes.len(),
{
    if writes.len() > 0 {
        let front = writes.drop_last();
        law_the_first_write_of_a_stream_is_found(front, stream);
        let place = first_write(writes, stream);
        assert forall|i: int| 0 <= i < place implies (#[trigger] writes[i]).stream != stream by {
            if i < front.len() {
                assert(front[i].stream != stream);
            }
        }
        if place < writes.len() {
            assert(writes[place].stream == stream);
        } else {
            assert forall|i: int| 0 <= i < writes.len() implies (#[trigger] writes[i]).stream
                != stream by {}
        }
    }
}

/// A connection that has lost what waited starts over: nothing waits, nothing is counted, and its
/// owner can be warned again.
pub proof fn law_a_failure_leaves_nothing_waiting(
    link: LinkView,
    output: OutputView,
    reason: Seq<char>,
)
    ensures
        ({
            let after = link.fail_pending(output, reason).0;
            &&& after.writes.len() == 0 && after.finishes.len() == 0
            &&& after.buffered_bytes == 0
            &&& !after.warned
            &&& after.id == link.id && after.owner == link.owner
        }),
{
}

/// What two steps send is sent one behind the other, and the timer is the one that was set last.
pub proof fn law_outputs_are_joined_in_order(first: OutputView, second: OutputView)
    ensures
        first.then_all(second).packets == first.packets + second.packets,
        first.then_all(second).events == first.events + second.events,
        first.then_all(second).replies == first.replies + second.replies,
        first.then_all(second).close_sockets == first.close_sockets + second.close_sockets,
        second.timer is Some ==> first.then_all(second).timer == second.timer,
        second.timer is None ==> first.then_all(second).timer == first.timer,
        first.then_all(OutputView::empty()) == first,
        OutputView::empty().then_all(second) == second,
{
    assert(first.then_all(OutputView::empty()) =~= first);
    assert(OutputView::empty().then_all(second) =~= second);
}

/// Of the connections of a socket those of which nothing is left are found, in order, and the time
/// at which the first of the others wants to be woken: none of them wants to be earlier.
pub proof fn law_a_survey_finds_the_first_deadline(
    state: StateView,
    handles: Seq<Bound>,
    reports: Seq<Report>,
    i: int,
)
    requires
        reports.len() == handles.len(),
        0 <= i < handles.len(),
        state.has_link(handles[i].id),
    ensures
        ({
            let (drained, deadline) = surveyed(state, handles, reports);
            &&& reports[i].drained ==> drained.contains(handles[i])
            &&& !reports[i].drained && reports[i].at is Some ==> deadline is Some && deadline->0
                <= reports[i].at->0
        }),
    decreases handles.len(),
{
    let (drained, deadline) = surveyed(state, handles, reports);
    let (less, earlier) = surveyed(state, handles.drop_last(), reports.drop_last());
    if i < handles.len() - 1 {
        law_a_survey_finds_the_first_deadline(
            state,
            handles.drop_last(),
            reports.drop_last(),
            i,
        );
        assert(handles.drop_last()[i] == handles[i]);
        assert(reports.drop_last()[i] == reports[i]);
        if reports[i].drained {
            let k = choose|k: int| 0 <= k < less.len() && less[k] == handles[i];
            assert(drained[k] == handles[i]);
        }
    } else if reports[i].drained {
        assert(drained[less.len() as int] == handles[i]);
    }
}

/// A deadline that is found is that of one of the connections.
pub proof fn law_a_deadline_belongs_to_a_connection(
    state: StateView,
    handles: Seq<Bound>,
    reports: Seq<Report>,
)
    requires
        reports.len() == handles.len(),
        surveyed(state, handles, reports).1 is Some,
    ensures
        exists|i: int|
            0 <= i < handles.len() && !(#[trigger] reports[i]).drained && reports[i].at == surveyed(
                state,
                handles,
                reports,
            ).1 && state.has_link(handles[i].id),
    decreases handles.len(),
{
    if handles.len() > 0 {
        let (less, earlier) = surveyed(state, handles.drop_last(), reports.drop_last());
        let deadline = surveyed(state, handles, reports).1;
        if deadline == earlier {
            law_a_deadline_belongs_to_a_connection(
                state,
                handles.drop_last(),
                reports.drop_last(),
            );
            let i = choose|i: int|
                0 <= i < handles.len() - 1 && !(#[trigger] reports.drop_last()[i]).drained
                    && reports.drop_last()[i].at == earlier && state.has_link(
                    handles.drop_last()[i].id,
                );
            assert(reports[i] == reports.drop_last()[i]);
        } else {
            assert(reports[handles.len() - 1].at == deadline);
        }
    }
}

/// Whoever asks about a connection is told what is known of it, or that it is not there.
pub proof fn law_a_question_about_a_connection_is_answered(
    state: StateView,
    config: QuicConfig,
    pending: Pending,
    id: QuicConnectionId,
    known: ProtoInfoView,
    output: OutputView,
)
    ensures
        ({
            let settled = state.settle(
                config,
                pending,
                Command::Info(id),
                OutcomeView::Info(known),
                output,
            );
            &&& settled.state == state
            &&& settled.output.replies.len() == output.replies.len() + 1
            &&& settled.output.replies.last().0 == pending
            &&& state.has_link(id) ==> settled.output.replies.last().1 == AnswerView::Info(
                state.link(id).info(known),
            )
            &&& !state.has_link(id) ==> settled.output.replies.last().1 is Failed
        }),
{
}

/// A code that is too large for the protocol is refused and never put to the engine; every other
/// is.
pub proof fn law_only_codes_that_fit_are_used(
    state: StateView,
    config: QuicConfig,
    pending: Pending,
    id: QuicConnectionId,
    stream: QuicStreamId,
    error_code: u64,
    outcome: OutcomeView,
    output: OutputView,
)
    ensures
        ({
            let reset = Command::Reset { id, stream, error_code };
            let stop = Command::Stop { id, stream, error_code };
            let settled = state.settle(config, pending, reset, outcome, output);
            &&& error_code >= 0x4000_0000_0000_0000 ==> {
                &&& !(state.consult(config, pending, reset) is Reset)
                &&& !(state.consult(config, pending, stop) is Stop)
                &&& settled.state == state
                &&& settled.output.replies.last().0 == pending
                &&& settled.output.replies.last().1 is Failed
                &&& settled.socket is None
            }
            &&& error_code < 0x4000_0000_0000_0000 && call_obstacle(
                state,
                pending.source,
                id,
                stream,
            ) is None ==> state.consult(config, pending, reset) is Reset && state.consult(
                config,
                pending,
                stop,
            ) is Stop && settled.socket == state.socket_of(id)
        }),
{
}

/// A connection that has just been entered has nothing waiting, and its owner has heard nothing.
pub proof fn law_a_fresh_connection_has_nothing_waiting(
    id: QuicConnectionId,
    socket: u32,
    owner: u32,
    started: bool,
    pending: Option<Pending>,
)
    ensures
        ({
            let link = fresh_link(id, socket, owner, None, None, started, pending);
            &&& link.writes.len() == 0 && link.finishes.len() == 0 && link.buffered_bytes == 0
            &&& link.queued_events.len() == 0
            &&& !link.warned && !link.announced
            &&& link.started == started && link.owner == owner && link.connect_pending == pending
            &&& link.endpoint_socket == socket && link.id == id
        }),
{
}

/// Whoever listens is told its own address, and nobody else's.
pub proof fn law_a_listener_is_told_its_address(
    state: StateView,
    pending: Pending,
    id: QuicListenerId,
    output: OutputView,
    k: int,
)
    requires
        0 <= k < state.endpoints.len(),
        state.endpoints[k].listener == Some(Listener { id, owner: pending.source }),
        forall|i: int|
            0 <= i < k ==> (#[trigger] state.endpoints[i]).listener != Some(
                Listener { id, owner: pending.source },
            ),
    ensures
        ({
            let settled = state.settle_local_addr(pending, id, output);
            &&& settled.state == state
            &&& settled.output.replies.len() == output.replies.len() + 1
            &&& settled.output.replies.last().0 == pending
            &&& match state.endpoints[k].local {
                Some(local) => settled.output.replies.last().1 == AnswerView::LocalAddr(local),
                None => settled.output.replies.last().1 is Failed,
            }
        }),
{
    lemma_listener_place(state.endpoints, Some(Listener { id, owner: pending.source }), k);
}

proof fn lemma_listener_place(endpoints: Seq<EndpointView>, listener: Option<Listener>, k: int)
    requires
        0 <= k < endpoints.len(),
        endpoints[k].listener == listener,
        forall|i: int| 0 <= i < k ==> (#[trigger] endpoints[i]).listener != listener,
    ensures
        first_place(endpoints, |endpoint: EndpointView| endpoint.listener == listener) == k,
{
    lemma_first_place_is(
        endpoints,
        |endpoint: EndpointView| endpoint.listener == listener,
        k,
    );
}

/// What is found first is the first finish of the stream: it is one, and none before it is.
pub proof fn law_the_first_finish_of_a_stream_is_found(
    finishes: Seq<QueuedFinish>,
    stream: u64,
)
    ensures
        0 <= first_finish(finishes, stream) <= finishes.len(),
        first_finish(finishes, stream) < finishes.len() ==> finishes[first_finish(
            finishes,
            stream,
        )].stream == stream,
        forall|i: int|
            0 <= i < first_finish(finishes, stream) ==> (#[trigger] finishes[i]).stream != stream,
    decreases finishes.len(),
{
    if finishes.len() > 0 {
        let front = finishes.drop_last();
        law_the_first_finish_of_a_stream_is_found(front, stream);
        assert forall|i: int| 0 <= i < first_finish(finishes, stream) implies (
        #[trigger] finishes[i]).stream != stream by {
            if i < front.len() {
                assert(front[i].stream != stream);
            }
        }
    }
}

} // verus!
