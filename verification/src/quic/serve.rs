//! One connection's turn: what the engine reports is entered into the books
//! and what waits is offered to the engine.

use crate::quic::config::QuicConfig;
use crate::quic::engine::{self, Engine, Signal, StreamSignal};
#[allow(unused_imports)]
use crate::quic::engine::{stream_news, Asked};
use crate::quic::event::{QuicEvent, QuicStreamId, StreamDirection};
use crate::quic::link::{is_receiving_side, Link};
#[allow(unused_imports)]
use crate::quic::{
    command::VARINT_BOUND,
    event::{bytes_view, EventView},
    link::{
        close_view, first_write, has_finish, has_write, lemma_first_finish, receives, LinkView,
        WriteView,
    },
    outcome::{CallOutcomeView, ReadOutcomeView, WriteOutcomeView},
    output::OutputView,
};
use crate::quic::output::DriveOutput;
use vstd::prelude::*;

verus! {

/// The direction of a stream.
pub fn direction(bidirectional: bool) -> (direction: StreamDirection)
    ensures
        direction == stream_direction(bidirectional),
{
    if bidirectional {
        StreamDirection::Bidirectional
    } else {
        StreamDirection::Unidirectional
    }
}

/// The direction of a stream.
pub open spec fn stream_direction(bidirectional: bool) -> StreamDirection {
    if bidirectional {
        StreamDirection::Bidirectional
    } else {
        StreamDirection::Unidirectional
    }
}

/// A stream's turn at sending: what came of offering its writes one after the
/// other, and of its finish where one was due.
#[verifier::ext_equal]
pub struct FlushTurn {
    pub stream: u64,
    pub writes: Seq<WriteOutcomeView>,
    pub finish: Option<CallOutcomeView>,
}

/// What the engine reported of a connection, and what came of following it up.
#[verifier::ext_equal]
pub enum Happening {
    HandshakeDataReady { alpn: Option<Seq<u8>> },
    Connected { peer: Seq<char> },
    Lost { reason: Seq<char>, application: Option<(u64, Seq<u8>)> },
    Opened { bidirectional: bool, streams: Seq<(u64, Seq<ReadOutcomeView>)> },
    Readable { stream: u64, reads: Seq<ReadOutcomeView> },
    Writable(FlushTurn),
    Finished { stream: u64 },
    Stopped { stream: u64, error_code: u64 },
    Datagrams { data: Seq<Seq<u8>> },
    /// Something that needs no entry.
    Idle,
}

/// Writes offered one after the other.
pub open spec fn rounds(
    link: LinkView,
    output: OutputView,
    stream: u64,
    outcomes: Seq<WriteOutcomeView>,
) -> (LinkView, OutputView)
    decreases outcomes.len(),
{
    if outcomes.len() == 0 {
        (link, output)
    } else {
        let (l, o) = rounds(link, output, stream, outcomes.drop_last());
        l.wrote_again(o, stream, outcomes.last())
    }
}

/// The write that is first in line for the stream is through after this
/// outcome.
pub open spec fn completes(link: LinkView, stream: u64, outcome: WriteOutcomeView) -> bool {
    match outcome {
        WriteOutcomeView::Written(count) => count == link.writes[first_write(
            link.writes,
            stream,
        )].remaining(),
        WriteOutcomeView::Blocked => false,
        WriteOutcomeView::Failed(_) => true,
    }
}

/// A stream's turn is over when no write waits for it or the last one offered
/// did not go through; its finish is due exactly when no write waits any more.
pub open spec fn turn_over(link: LinkView, output: OutputView, turn: FlushTurn) -> bool {
    let (l, o) = rounds(link, output, turn.stream, turn.writes);
    &&& has_write(l.writes, turn.stream) ==> turn.writes.len() > 0 && !completes(
        rounds(link, output, turn.stream, turn.writes.drop_last()).0,
        turn.stream,
        turn.writes.last(),
    )
    &&& turn.finish is Some <==> !has_write(l.writes, turn.stream) && has_finish(
        l.finishes,
        turn.stream,
    )
}

/// A stream's turn at sending.
pub open spec fn flushed(
    link: LinkView,
    output: OutputView,
    turn: FlushTurn,
    low_water: int,
) -> (LinkView, OutputView) {
    let (l, o) = rounds(link, output, turn.stream, turn.writes);
    let (l, o) = match turn.finish {
        Some(outcome) => l.finished(o, turn.stream, outcome),
        None => (l, o),
    };
    (l.relaxed(low_water), o)
}

/// The turns of several streams, one after the other.
pub open spec fn flushed_all(
    link: LinkView,
    output: OutputView,
    turns: Seq<FlushTurn>,
    low_water: int,
) -> (LinkView, OutputView)
    decreases turns.len(),
{
    if turns.len() == 0 {
        (link, output)
    } else {
        let (l, o) = flushed_all(link, output, turns.drop_last(), low_water);
        flushed(l, o, turns.last(), low_water)
    }
}

/// What reading from a stream gave, one read after the other.
pub open spec fn read_all(
    link: LinkView,
    output: OutputView,
    stream: u64,
    reads: Seq<ReadOutcomeView>,
) -> (LinkView, OutputView)
    decreases reads.len(),
{
    if reads.len() == 0 {
        (link, output)
    } else {
        let (l, o) = read_all(link, output, stream, reads.drop_last());
        l.read(o, stream, reads.last())
    }
}

/// Streams that the peer has opened: each is told of, then read.
pub open spec fn opened_all(
    link: LinkView,
    output: OutputView,
    bidirectional: bool,
    streams: Seq<(u64, Seq<ReadOutcomeView>)>,
) -> (LinkView, OutputView)
    decreases streams.len(),
{
    if streams.len() == 0 {
        (link, output)
    } else {
        let (l, o) = opened_all(link, output, bidirectional, streams.drop_last());
        let (stream, reads) = streams.last();
        let (l, o) = l.tell(
            o,
            EventView::StreamOpened {
                id: l.id,
                stream: QuicStreamId(stream),
                direction: stream_direction(bidirectional),
            },
        );
        read_all(l, o, stream, reads)
    }
}

/// Datagrams that have come, each told of.
pub open spec fn datagrams_all(link: LinkView, output: OutputView, data: Seq<Seq<u8>>) -> (
    LinkView,
    OutputView,
)
    decreases data.len(),
{
    if data.len() == 0 {
        (link, output)
    } else {
        let (l, o) = datagrams_all(link, output, data.drop_last());
        l.tell(o, EventView::Datagram { id: l.id, data: data.last() })
    }
}

/// What one report of the engine does.
pub open spec fn happen(
    link: LinkView,
    output: OutputView,
    happening: Happening,
    low_water: int,
) -> (LinkView, OutputView) {
    match happening {
        Happening::HandshakeDataReady { alpn } => (LinkView { alpn, ..link }, output),
        Happening::Connected { peer } => link.connected(output, peer),
        Happening::Lost { reason, application } => link.lost(output, reason, application),
        Happening::Opened { bidirectional, streams } => opened_all(
            link,
            output,
            bidirectional,
            streams,
        ),
        Happening::Readable { stream, reads } => read_all(link, output, stream, reads),
        Happening::Writable(turn) => flushed(link, output, turn, low_water),
        Happening::Finished { stream } => link.tell(
            output,
            EventView::SendFinished { id: link.id, stream: QuicStreamId(stream) },
        ),
        Happening::Stopped { stream, error_code } => link.tell(
            output,
            EventView::StreamStopped { id: link.id, stream: QuicStreamId(stream), error_code },
        ),
        Happening::Datagrams { data } => datagrams_all(link, output, data),
        Happening::Idle => (link, output),
    }
}

/// What the reports of the engine do, one after the other.
pub open spec fn happen_all(
    link: LinkView,
    output: OutputView,
    happenings: Seq<Happening>,
    low_water: int,
) -> (LinkView, OutputView)
    decreases happenings.len(),
{
    if happenings.len() == 0 {
        (link, output)
    } else {
        let (l, o) = happen_all(link, output, happenings.drop_last(), low_water);
        happen(l, o, happenings.last(), low_water)
    }
}

/// What the engine is asked for while writes are offered one after the other:
/// each time what is left of the first.
pub open spec fn rounds_asked(
    link: LinkView,
    output: OutputView,
    stream: u64,
    outcomes: Seq<WriteOutcomeView>,
) -> Seq<Asked>
    decreases outcomes.len(),
{
    if outcomes.len() == 0 {
        Seq::empty()
    } else {
        let earlier = outcomes.drop_last();
        let writes = rounds(link, output, stream, earlier).0.writes;
        let first = writes[first_write(writes, stream)];
        rounds_asked(link, output, stream, earlier).push(
            Asked::Write {
                stream,
                data: first.data.skip(first.offset),
                outcome: outcomes.last(),
            },
        )
    }
}

/// What the engine is asked for in a stream's turn at sending.
pub open spec fn flush_asked(link: LinkView, output: OutputView, turn: FlushTurn) -> Seq<Asked> {
    let writes = rounds_asked(link, output, turn.stream, turn.writes);
    match turn.finish {
        Some(outcome) => writes.push(Asked::Finish { stream: turn.stream, outcome }),
        None => writes,
    }
}

/// What the engine is asked for in the turns of several streams.
pub open spec fn flush_all_asked(
    link: LinkView,
    output: OutputView,
    turns: Seq<FlushTurn>,
    low_water: int,
) -> Seq<Asked>
    decreases turns.len(),
{
    if turns.len() == 0 {
        Seq::empty()
    } else {
        let (l, o) = flushed_all(link, output, turns.drop_last(), low_water);
        flush_all_asked(link, output, turns.drop_last(), low_water) + flush_asked(
            l,
            o,
            turns.last(),
        )
    }
}

/// Each of several turns is over when the next one begins.
pub open spec fn turns_over(
    link: LinkView,
    output: OutputView,
    turns: Seq<FlushTurn>,
    low_water: int,
) -> bool
    decreases turns.len(),
{
    if turns.len() == 0 {
        true
    } else {
        let (l, o) = flushed_all(link, output, turns.drop_last(), low_water);
        turns_over(link, output, turns.drop_last(), low_water) && turn_over(l, o, turns.last())
    }
}

/// Each stream that has something to send has a turn.
pub open spec fn all_turned(writes: Seq<WriteView>, turns: Seq<FlushTurn>) -> bool {
    forall|stream: u64| #[trigger]
        has_write(writes, stream) ==> exists|i: int|
            0 <= i < turns.len() && (#[trigger] turns[i]).stream == stream
}

/// What the engine is asked for while a stream is read.
pub open spec fn reads_asked(stream: u64, limit: usize, reads: Seq<ReadOutcomeView>) -> Seq<Asked> {
    reads.map_values(|outcome: ReadOutcomeView| Asked::Read { stream, limit, outcome })
}

/// A stream is read until it has nothing more; one that this side does not
/// receive on is not read at all.
pub open spec fn read_over(server: bool, stream: u64, reads: Seq<ReadOutcomeView>) -> bool {
    if stream >= VARINT_BOUND || !receives(server, stream) {
        reads.len() == 0
    } else {
        &&& reads.len() > 0
        &&& forall|i: int| 0 <= i < reads.len() - 1 ==> (#[trigger] reads[i]) is Data
        &&& reads.last() is Data ==> reads.len() == u64::MAX
    }
}

/// What the engine is asked for while streams of the peer are taken and read.
pub open spec fn opened_asked(
    bidirectional: bool,
    limit: usize,
    streams: Seq<(u64, Seq<ReadOutcomeView>)>,
) -> Seq<Asked>
    decreases streams.len(),
{
    if streams.len() == 0 {
        Seq::empty()
    } else {
        let (stream, reads) = streams.last();
        opened_asked(bidirectional, limit, streams.drop_last()).push(
            Asked::Accept { bidirectional, stream: Some(stream) },
        ) + reads_asked(stream, limit, reads)
    }
}

/// Each of the streams is read until it has nothing more.
pub open spec fn all_read(server: bool, streams: Seq<(u64, Seq<ReadOutcomeView>)>) -> bool {
    forall|i: int|
        0 <= i < streams.len() ==> read_over(server, (#[trigger] streams[i]).0, streams[i].1)
}

/// What the engine is asked for while datagrams are taken.
pub open spec fn datagrams_asked(data: Seq<Seq<u8>>) -> Seq<Asked> {
    data.map_values(|data: Seq<u8>| Asked::Receive { data: Some(data) })
}

/// The engine is asked until it has nothing more, or for `count` things that
/// are as many as can be counted.
pub open spec fn exhausted(asked: Seq<Asked>, found: Seq<Asked>, end: Asked, count: nat) -> bool {
    asked == found.push(end) || count == u64::MAX && asked == found
}

/// What following up one report asks of the engine.
pub open spec fn asks(
    asked: Seq<Asked>,
    link: LinkView,
    output: OutputView,
    happening: Happening,
    limit: usize,
) -> bool {
    match happening {
        Happening::HandshakeDataReady { alpn } => asked == seq![Asked::Alpn { alpn }],
        Happening::Connected { peer } => asked == seq![Asked::Peer { peer }],
        Happening::Opened { bidirectional, streams } => exhausted(
            asked,
            opened_asked(bidirectional, limit, streams),
            Asked::Accept { bidirectional, stream: None },
            streams.len(),
        ) && all_read(link.is_server(), streams),
        Happening::Readable { stream, reads } => asked == reads_asked(stream, limit, reads)
            && read_over(link.is_server(), stream, reads),
        Happening::Writable(turn) => asked == flush_asked(link, output, turn) && turn_over(
            link,
            output,
            turn,
        ),
        Happening::Datagrams { data } => exhausted(
            asked,
            datagrams_asked(data),
            Asked::Receive { data: None },
            data.len(),
        ),
        _ => asked.len() == 0,
    }
}

/// What following up several reports asks of the engine, report by report.
pub open spec fn asks_all(
    signals: Seq<Signal>,
    pieces: Seq<Seq<Asked>>,
    link: LinkView,
    output: OutputView,
    happenings: Seq<Happening>,
    config: QuicConfig,
) -> bool
    decreases happenings.len(),
{
    if happenings.len() == 0 {
        signals.len() == 0 && pieces.len() == 0
    } else {
        let (l, o) = happen_all(
            link,
            output,
            happenings.drop_last(),
            config.write_low_water as int,
        );
        &&& signals.len() == happenings.len()
        &&& pieces.len() == happenings.len()
        &&& asks_all(
            signals.drop_last(),
            pieces.drop_last(),
            link,
            output,
            happenings.drop_last(),
            config,
        )
        &&& reports(signals.last(), happenings.last())
        &&& asks(pieces.last(), l, o, happenings.last(), config.max_chunk_size)
    }
}

/// The engine is asked for each report, and for what the report leads to.
pub open spec fn polled(signals: Seq<Signal>, pieces: Seq<Seq<Asked>>) -> Seq<Asked>
    decreases pieces.len(),
{
    if pieces.len() == 0 {
        Seq::empty()
    } else {
        polled(signals.drop_last(), pieces.drop_last()).push(
            Asked::Poll { signal: Some(signals.last()) },
        ) + pieces.last()
    }
}

/// Offers the waiting writes of a stream until it takes no more, then carries
/// out a finish that was waiting for them.
pub fn flush_stream_writes(
    engine: &mut Engine,
    link: &mut Link,
    stream: u64,
    low_water: usize,
    output: &mut DriveOutput,
)
    requires
        old(link)@.wf(),
        old(engine).server() == old(link)@.is_server(),
    ensures
        final(link)@.wf(),
        final(link)@.id == old(link)@.id,
        final(link)@.listener == old(link)@.listener,
        final(engine).server() == old(engine).server(),
        exists|turn: FlushTurn| #[trigger]
            turn_over(old(link)@, old(output)@, turn) && turn.stream == stream && (
                final(link)@,
                final(output)@,
            ) == flushed(old(link)@, old(output)@, turn, low_water as int)
                && final(engine).asked() == old(engine).asked() + flush_asked(
                old(link)@,
                old(output)@,
                turn,
            ),
{
    let ghost mut outcomes: Seq<WriteOutcomeView> = Seq::empty();
    let mut more = true;
    assert(old(engine).asked() + Seq::<Asked>::empty() =~= old(engine).asked());
    while more
        invariant
            (link@, output@) == rounds(old(link)@, old(output)@, stream, outcomes),
            engine.asked() == old(engine).asked() + rounds_asked(
                old(link)@,
                old(output)@,
                stream,
                outcomes,
            ),
            link@.writes_ok(),
            link@.id == old(link)@.id,
            link@.listener == old(link)@.listener,
            link@.finishes == old(link)@.finishes,
            engine.server() == old(engine).server(),
            engine.server() == link@.is_server(),
            forall|other: u64|
                other != stream ==> (#[trigger] has_write(link@.writes, other) <==> has_write(
                    old(link)@.writes,
                    other,
                )),
            old(link)@.wf(),
            more ==> (!has_write(link@.writes, stream) || link@.wf()),
            !more && has_write(link@.writes, stream) ==> link@.wf() && outcomes.len() > 0
                && !completes(
                rounds(old(link)@, old(output)@, stream, outcomes.drop_last()).0,
                stream,
                outcomes.last(),
            ),
        decreases link@.writes.len() + (if more { 1int } else { 0int }),
    {
        match link.find_write(stream) {
            None => {
                more = false;
            },
            Some(place) => {
                assert(link@.writes[place as int] == link.writes@[place as int]@);
                let outcome = engine::write(
                    engine,
                    stream,
                    &link.writes[place].data,
                    link.writes[place].offset,
                );
                let ghost before = link@;
                let ghost seen = outcome@;
                more = link.wrote_again(stream, outcome, output);
                proof {
                    let earlier = outcomes;
                    outcomes = outcomes.push(seen);
                    assert(outcomes.drop_last() =~= earlier);
                    assert(engine.asked() =~= old(engine).asked() + rounds_asked(
                        old(link)@,
                        old(output)@,
                        stream,
                        outcomes,
                    ));
                    if has_write(link@.writes, stream) {
                        lemma_still_waiting(before, link@, stream);
                    }
                }
            },
        }
    }
    let waiting = link.find_write(stream).is_some();
    let ghost mut finish: Option<CallOutcomeView> = None;
    let ghost flushed_link = link@;
    if !waiting && link.find_finish(stream).is_some() {
        proof {
            lemma_first_finish(link@.finishes, stream);
            let k = crate::quic::link::first_finish(link@.finishes, stream);
            assert(has_write(old(link)@.writes, old(link)@.finishes[k].stream));
            let w = choose|w: int|
                0 <= w < old(link)@.writes.len() && (#[trigger] old(link)@.writes[w]).stream
                    == stream;
            assert(old(link)@.admits(old(link)@.writes[w].stream));
        }
        let outcome = engine::finish(engine, stream);
        proof {
            finish = Some(outcome@);
        }
        link.finished(stream, outcome, output);
        proof {
            lemma_finish_done(old(link)@, flushed_link, link@, stream);
        }
    } else {
        proof {
            if !waiting {
                lemma_none_due(old(link)@, link@, stream);
            }
        }
    }
    link.relax(low_water);
    proof {
        let turn = FlushTurn { stream, writes: outcomes, finish };
        assert(engine.asked() =~= old(engine).asked() + flush_asked(old(link)@, old(output)@, turn));
        assert(turn_over(old(link)@, old(output)@, turn));
    }
}

/// While a write of the stream waits, its finish waits with reason.
proof fn lemma_still_waiting(before: LinkView, after: LinkView, stream: u64)
    requires
        before.wf(),
        after.writes_ok(),
        after.finishes == before.finishes,
        has_write(after.writes, stream),
        forall|other: u64|
            other != stream ==> (#[trigger] has_write(after.writes, other) <==> has_write(
                before.writes,
                other,
            )),
    ensures
        after.wf(),
{
    assert forall|i: int| 0 <= i < after.finishes.len() implies has_write(
        after.writes,
        (#[trigger] after.finishes[i]).stream,
    ) by {
        assert(has_write(before.writes, before.finishes[i].stream));
        assert(has_write(after.writes, after.finishes[i].stream));
    }
    assert forall|i: int, j: int| 0 <= i < j < after.finishes.len() implies (
    #[trigger] after.finishes[i]).stream != (#[trigger] after.finishes[j]).stream by {
        assert(before.finishes[i].stream != before.finishes[j].stream);
    }
}

/// With the finish of the drained stream carried out, every other finish
/// waits with reason.
proof fn lemma_finish_done(start: LinkView, before: LinkView, after: LinkView, stream: u64)
    requires
        start.wf(),
        before.finishes == start.finishes,
        has_finish(before.finishes, stream),
        after.writes_ok(),
        after.writes == before.writes,
        after.finishes == before.finishes.remove(
            crate::quic::link::first_finish(before.finishes, stream),
        ),
        forall|other: u64|
            other != stream ==> (#[trigger] has_write(before.writes, other) <==> has_write(
                start.writes,
                other,
            )),
    ensures
        after.wf(),
{
    let place = crate::quic::link::first_finish(before.finishes, stream);
    lemma_first_finish(before.finishes, stream);
    assert forall|i: int| 0 <= i < after.finishes.len() implies has_write(
        after.writes,
        (#[trigger] after.finishes[i]).stream,
    ) by {
        let k = if i < place {
            i
        } else {
            i + 1
        };
        assert(after.finishes[i] == start.finishes[k]);
        assert(has_write(start.writes, start.finishes[k].stream));
        if i < place {
            assert(start.finishes[i].stream != start.finishes[place].stream);
        } else {
            assert(start.finishes[place].stream != start.finishes[k].stream);
        }
        assert(has_write(before.writes, after.finishes[i].stream));
    }
    assert forall|i: int, j: int| 0 <= i < j < after.finishes.len() implies (
    #[trigger] after.finishes[i]).stream != (#[trigger] after.finishes[j]).stream by {
        let k = if i < place {
            i
        } else {
            i + 1
        };
        let l = if j < place {
            j
        } else {
            j + 1
        };
        assert(start.finishes[k].stream != start.finishes[l].stream);
    }
}

/// Where the drained stream has no finish, every finish waits with reason.
proof fn lemma_none_due(start: LinkView, after: LinkView, stream: u64)
    requires
        start.wf(),
        after.writes_ok(),
        after.finishes == start.finishes,
        !has_finish(after.finishes, stream),
        forall|other: u64|
            other != stream ==> (#[trigger] has_write(after.writes, other) <==> has_write(
                start.writes,
                other,
            )),
    ensures
        after.wf(),
{
    assert forall|i: int| 0 <= i < after.finishes.len() implies has_write(
        after.writes,
        (#[trigger] after.finishes[i]).stream,
    ) by {
        assert(has_write(start.writes, start.finishes[i].stream));
        assert(after.finishes[i].stream != stream);
        assert(has_write(after.writes, after.finishes[i].stream));
    }
    assert forall|i: int, j: int| 0 <= i < j < after.finishes.len() implies (
    #[trigger] after.finishes[i]).stream != (#[trigger] after.finishes[j]).stream by {
        assert(start.finishes[i].stream != start.finishes[j].stream);
    }
}

/// Gives every stream that writes wait for its turn.
pub fn flush_writes(
    engine: &mut Engine,
    link: &mut Link,
    low_water: usize,
    output: &mut DriveOutput,
)
    requires
        old(link)@.wf(),
        old(engine).server() == old(link)@.is_server(),
    ensures
        final(link)@.wf(),
        final(link)@.id == old(link)@.id,
        final(link)@.listener == old(link)@.listener,
        final(engine).server() == old(engine).server(),
        exists|turns: Seq<FlushTurn>|
            (final(link)@, final(output)@) == #[trigger] flushed_all(
                old(link)@,
                old(output)@,
                turns,
                low_water as int,
            ) && final(engine).asked() == old(engine).asked() + flush_all_asked(
                old(link)@,
                old(output)@,
                turns,
                low_water as int,
            ) && all_turned(old(link)@.writes, turns) && turns_over(
                old(link)@,
                old(output)@,
                turns,
                low_water as int,
            ),
{
    let streams = link.waiting_streams();
    let ghost mut turns: Seq<FlushTurn> = Seq::empty();
    let mut i: usize = 0;
    assert(old(engine).asked() + Seq::<Asked>::empty() =~= old(engine).asked());
    while i < streams.len()
        invariant
            engine.asked() == old(engine).asked() + flush_all_asked(
                old(link)@,
                old(output)@,
                turns,
                low_water as int,
            ),
            i <= streams@.len(),
            turns.len() == i,
            turns_over(old(link)@, old(output)@, turns, low_water as int),
            forall|j: int| 0 <= j < i ==> (#[trigger] turns[j]).stream == streams@[j],
            link@.wf(),
            link@.id == old(link)@.id,
            link@.listener == old(link)@.listener,
            engine.server() == old(engine).server(),
            engine.server() == link@.is_server(),
            (link@, output@) == flushed_all(old(link)@, old(output)@, turns, low_water as int),
        decreases streams@.len() - i,
    {
        let ghost l = link@;
        let ghost o = output@;
        let ghost record = engine.asked();
        flush_stream_writes(engine, link, streams[i], low_water, output);
        proof {
            let turn = choose|turn: FlushTurn| #[trigger]
                turn_over(l, o, turn) && turn.stream == streams@[i as int] && (link@, output@)
                    == flushed(l, o, turn, low_water as int) && engine.asked() == record
                    + flush_asked(l, o, turn);
            let earlier = turns;
            turns = turns.push(turn);
            assert(turns.drop_last() =~= earlier);
            assert(engine.asked() =~= old(engine).asked() + flush_all_asked(
                old(link)@,
                old(output)@,
                turns,
                low_water as int,
            ));
        }
        i = i + 1;
    }
    proof {
        assert forall|stream: u64| has_write(old(link)@.writes, stream) implies exists|j: int|
            0 <= j < turns.len() && (#[trigger] turns[j]).stream == stream by {
            assert(streams@.contains(stream));
            let j = choose|j: int| 0 <= j < streams@.len() && streams@[j] == stream;
            assert(turns[j].stream == stream);
        }
        assert((link@, output@) == flushed_all(old(link)@, old(output)@, turns, low_water as int));
    }
}

/// Reads a stream until nothing more comes.
pub fn read_stream(
    engine: &mut Engine,
    link: &mut Link,
    stream: u64,
    max_chunk: usize,
    output: &mut DriveOutput,
)
    requires
        old(link)@.wf(),
        old(engine).server() == old(link)@.is_server(),
    ensures
        final(link)@.wf(),
        final(link)@.id == old(link)@.id,
        final(link)@.listener == old(link)@.listener,
        final(engine).server() == old(engine).server(),
        exists|reads: Seq<ReadOutcomeView>|
            (final(link)@, final(output)@) == #[trigger] read_all(
                old(link)@,
                old(output)@,
                stream,
                reads,
            ) && final(engine).asked() == old(engine).asked() + reads_asked(
                stream,
                max_chunk,
                reads,
            ) && read_over(old(engine).server(), stream, reads),
{
    let ghost mut reads: Seq<ReadOutcomeView> = Seq::empty();
    assert(old(engine).asked() + reads_asked(stream, max_chunk, reads) =~= old(engine).asked());
    if stream >= VARINT_BOUND || !is_receiving_side(engine.is_server(), stream) {
        assert((link@, output@) == read_all(old(link)@, old(output)@, stream, reads));
        return;
    }
    let mut turns: u64 = u64::MAX;
    let mut more = true;
    while more && turns > 0
        invariant
            stream < VARINT_BOUND,
            receives(engine.server(), stream),
            link@.wf(),
            link@.id == old(link)@.id,
            link@.listener == old(link)@.listener,
            engine.server() == old(engine).server(),
            (link@, output@) == read_all(old(link)@, old(output)@, stream, reads),
            engine.asked() == old(engine).asked() + reads_asked(stream, max_chunk, reads),
            reads.len() + turns == u64::MAX,
            more || reads.len() > 0,
            forall|i: int| 0 <= i < reads.len() - 1 ==> (#[trigger] reads[i]) is Data,
            reads.len() > 0 ==> (more <==> reads.last() is Data),
        decreases turns,
    {
        let outcome = engine::read(engine, stream, max_chunk);
        proof {
            let earlier = reads;
            reads = reads.push(outcome@);
            assert(reads.drop_last() =~= earlier);
            assert(engine.asked() =~= old(engine).asked() + reads_asked(stream, max_chunk, reads));
        }
        more = link.read(stream, outcome, output);
        turns = turns - 1;
    }
    assert((link@, output@) == read_all(old(link)@, old(output)@, stream, reads));
}

/// Takes the streams that the peer has opened, tells of each and reads it:
/// the first packet of a stream may carry data that is not reported again.
fn accept_streams(
    engine: &mut Engine,
    link: &mut Link,
    bidirectional: bool,
    max_chunk: usize,
    output: &mut DriveOutput,
)
    requires
        old(link)@.wf(),
        old(engine).server() == old(link)@.is_server(),
    ensures
        final(link)@.wf(),
        final(link)@.id == old(link)@.id,
        final(link)@.listener == old(link)@.listener,
        final(engine).server() == old(engine).server(),
        exists|streams: Seq<(u64, Seq<ReadOutcomeView>)>|
            (final(link)@, final(output)@) == #[trigger] opened_all(
                old(link)@,
                old(output)@,
                bidirectional,
                streams,
            ) && all_read(old(engine).server(), streams) && exists|asked: Seq<Asked>|
                final(engine).asked() == old(engine).asked() + asked && #[trigger] exhausted(
                    asked,
                    opened_asked(bidirectional, max_chunk, streams),
                    Asked::Accept { bidirectional, stream: None },
                    streams.len(),
                ),
{
    let ghost mut streams: Seq<(u64, Seq<ReadOutcomeView>)> = Seq::empty();
    let ghost mut found: Seq<Asked> = Seq::empty();
    let mut turns: u64 = u64::MAX;
    let mut more = true;
    while more && turns > 0
        invariant
            streams.len() + turns == u64::MAX || !more,
            found == opened_asked(bidirectional, max_chunk, streams),
            all_read(engine.server(), streams),
            more ==> engine.asked() == old(engine).asked() + found,
            !more ==> engine.asked() == old(engine).asked() + found.push(
                Asked::Accept { bidirectional, stream: None },
            ),
            link@.wf(),
            link@.id == old(link)@.id,
            link@.listener == old(link)@.listener,
            engine.server() == old(engine).server(),
            engine.server() == link@.is_server(),
            (link@, output@) == opened_all(old(link)@, old(output)@, bidirectional, streams),
        decreases turns,
    {
        let next = engine::accept_stream(engine, bidirectional);
        match next {
            None => {
                more = false;
                assert(engine.asked() =~= old(engine).asked() + found.push(
                    Asked::Accept { bidirectional, stream: None },
                ));
            },
            Some(stream) => {
                let event = QuicEvent::StreamOpened {
                    id: link.id,
                    stream: QuicStreamId(stream),
                    direction: direction(bidirectional),
                };
                link.queue_event(event, output);
                let ghost l = link@;
                let ghost o = output@;
                let ghost record = engine.asked();
                read_stream(engine, link, stream, max_chunk, output);
                proof {
                    let reads = choose|reads: Seq<ReadOutcomeView>|
                        (link@, output@) == #[trigger] read_all(l, o, stream, reads)
                            && engine.asked() == record + reads_asked(stream, max_chunk, reads)
                            && read_over(engine.server(), stream, reads);
                    let earlier = streams;
                    streams = streams.push((stream, reads));
                    assert(streams.drop_last() =~= earlier);
                    found = opened_asked(bidirectional, max_chunk, streams);
                    assert(engine.asked() =~= old(engine).asked() + found);
                }
            },
        }
        turns = turns - 1;
    }
    proof {
        let asked = if more {
            found
        } else {
            found.push(Asked::Accept { bidirectional, stream: None })
        };
        assert(exhausted(
            asked,
            found,
            Asked::Accept { bidirectional, stream: None },
            streams.len(),
        ));
    }
    assert((link@, output@) == opened_all(old(link)@, old(output)@, bidirectional, streams));
}

/// Takes the datagrams that have come and tells of each.
fn take_datagrams(engine: &mut Engine, link: &mut Link, output: &mut DriveOutput)
    requires
        old(link)@.wf(),
    ensures
        final(link)@.wf(),
        final(link)@.id == old(link)@.id,
        final(link)@.listener == old(link)@.listener,
        final(engine).server() == old(engine).server(),
        exists|data: Seq<Seq<u8>>|
            (final(link)@, final(output)@) == #[trigger] datagrams_all(
                old(link)@,
                old(output)@,
                data,
            ) && exists|asked: Seq<Asked>|
                final(engine).asked() == old(engine).asked() + asked && #[trigger] exhausted(
                    asked,
                    datagrams_asked(data),
                    Asked::Receive { data: None },
                    data.len(),
                ),
{
    let ghost mut taken: Seq<Seq<u8>> = Seq::empty();
    let mut turns: u64 = u64::MAX;
    let mut more = true;
    assert(old(engine).asked() + datagrams_asked(taken) =~= old(engine).asked());
    while more && turns > 0
        invariant
            taken.len() + turns == u64::MAX || !more,
            more ==> engine.asked() == old(engine).asked() + datagrams_asked(taken),
            !more ==> engine.asked() == old(engine).asked() + datagrams_asked(taken).push(
                Asked::Receive { data: None },
            ),
            link@.wf(),
            link@.id == old(link)@.id,
            link@.listener == old(link)@.listener,
            engine.server() == old(engine).server(),
            (link@, output@) == datagrams_all(old(link)@, old(output)@, taken),
        decreases turns,
    {
        let next = engine::next_datagram(engine);
        match next {
            None => {
                more = false;
                assert(engine.asked() =~= old(engine).asked() + datagrams_asked(taken).push(
                    Asked::Receive { data: None },
                ));
            },
            Some(data) => {
                proof {
                    let earlier = taken;
                    taken = taken.push(data@);
                    assert(taken.drop_last() =~= earlier);
                    assert(engine.asked() =~= old(engine).asked() + datagrams_asked(taken));
                }
                let event = QuicEvent::Datagram { id: link.id, data };
                link.queue_event(event, output);
            },
        }
        turns = turns - 1;
    }
    proof {
        let asked = if more {
            datagrams_asked(taken)
        } else {
            datagrams_asked(taken).push(Asked::Receive { data: None })
        };
        assert(exhausted(asked, datagrams_asked(taken), Asked::Receive { data: None }, taken.len()));
    }
    assert((link@, output@) == datagrams_all(old(link)@, old(output)@, taken));
}

/// Enters one report of the engine about a stream.
fn enter_stream_signal(
    engine: &mut Engine,
    link: &mut Link,
    signal: StreamSignal,
    config: &QuicConfig,
    output: &mut DriveOutput,
)
    requires
        old(link)@.wf(),
        old(engine).server() == old(link)@.is_server(),
    ensures
        final(link)@.wf(),
        final(link)@.id == old(link)@.id,
        final(link)@.listener == old(link)@.listener,
        final(engine).server() == old(engine).server(),
        exists|happening: Happening|
            (final(link)@, final(output)@) == #[trigger] happen(
                old(link)@,
                old(output)@,
                happening,
                config.write_low_water as int,
            ) && stream_reports(signal, happening) && exists|asked: Seq<Asked>|
                final(engine).asked() == old(engine).asked() + asked && #[trigger] asks(
                    asked,
                    old(link)@,
                    old(output)@,
                    happening,
                    config.max_chunk_size,
                ),
{
    let low_water: usize = config.write_low_water;
    let ghost start = link@;
    let ghost sent = output@;
    let ghost mut happening = Happening::Idle;
    let ghost record = engine.asked();
    let ghost mut asked: Seq<Asked> = Seq::empty();
    assert(record + asked =~= record);
    match signal {
        StreamSignal::Opened { bidirectional } => {
            accept_streams(engine, link, bidirectional, config.max_chunk_size, output);
            proof {
                let streams = choose|streams: Seq<(u64, Seq<ReadOutcomeView>)>|
                    (link@, output@) == #[trigger] opened_all(
                        start,
                        sent,
                        bidirectional,
                        streams,
                    ) && all_read(engine.server(), streams) && exists|asked: Seq<Asked>|
                        engine.asked() == record + asked && #[trigger] exhausted(
                            asked,
                            opened_asked(bidirectional, config.max_chunk_size, streams),
                            Asked::Accept { bidirectional, stream: None },
                            streams.len(),
                        );
                happening = Happening::Opened { bidirectional, streams };
                asked = choose|asked: Seq<Asked>|
                    engine.asked() == record + asked && #[trigger] exhausted(
                        asked,
                        opened_asked(bidirectional, config.max_chunk_size, streams),
                        Asked::Accept { bidirectional, stream: None },
                        streams.len(),
                    );
            }
        },
        StreamSignal::Readable { stream } => {
            read_stream(engine, link, stream, config.max_chunk_size, output);
            proof {
                let reads = choose|reads: Seq<ReadOutcomeView>|
                    (link@, output@) == #[trigger] read_all(start, sent, stream, reads)
                        && engine.asked() == record + reads_asked(
                        stream,
                        config.max_chunk_size,
                        reads,
                    ) && read_over(engine.server(), stream, reads);
                happening = Happening::Readable { stream, reads };
                asked = reads_asked(stream, config.max_chunk_size, reads);
            }
        },
        StreamSignal::Writable { stream } => {
            flush_stream_writes(engine, link, stream, low_water, output);
            proof {
                let turn = choose|turn: FlushTurn| #[trigger]
                    turn_over(start, sent, turn) && turn.stream == stream && (
                        link@,
                        output@,
                    ) == flushed(start, sent, turn, low_water as int) && engine.asked() == record
                        + flush_asked(start, sent, turn);
                happening = Happening::Writable(turn);
                asked = flush_asked(start, sent, turn);
            }
        },
        StreamSignal::Finished { stream } => {
            let event = QuicEvent::SendFinished {
                id: link.id,
                stream: QuicStreamId(stream),
            };
            link.queue_event(event, output);
            proof {
                happening = Happening::Finished { stream };
            }
        },
        StreamSignal::Stopped { stream, error_code } => {
            let event = QuicEvent::StreamStopped {
                id: link.id,
                stream: QuicStreamId(stream),
                error_code,
            };
            link.queue_event(event, output);
            proof {
                happening = Happening::Stopped { stream, error_code };
            }
        },
        StreamSignal::Available => {},
    }
    assert(asks(asked, start, sent, happening, config.max_chunk_size));
    assert((link@, output@) == happen(start, sent, happening, low_water as int));
}

/// The entry is one that the report about a stream can have.
pub open spec fn stream_reports(signal: StreamSignal, happening: Happening) -> bool {
    match signal {
        StreamSignal::Opened { bidirectional } => happening is Opened
            && happening->Opened_bidirectional == bidirectional,
        StreamSignal::Readable { stream } => happening is Readable && happening->Readable_stream
            == stream,
        StreamSignal::Writable { stream } => happening is Writable && happening->Writable_0.stream
            == stream,
        StreamSignal::Finished { stream } => happening == (Happening::Finished { stream }),
        StreamSignal::Stopped { stream, error_code } => happening == (Happening::Stopped {
            stream,
            error_code,
        }),
        StreamSignal::Available => happening is Idle,
    }
}

/// Enters one report of the engine.
fn enter_signal(
    engine: &mut Engine,
    link: &mut Link,
    signal: Signal,
    config: &QuicConfig,
    output: &mut DriveOutput,
)
    requires
        old(link)@.wf(),
        old(engine).server() == old(link)@.is_server(),
    ensures
        final(link)@.wf(),
        final(link)@.id == old(link)@.id,
        final(link)@.listener == old(link)@.listener,
        final(engine).server() == old(engine).server(),
        exists|happening: Happening|
            (final(link)@, final(output)@) == #[trigger] happen(
                old(link)@,
                old(output)@,
                happening,
                config.write_low_water as int,
            ) && reports(signal, happening) && exists|asked: Seq<Asked>|
                final(engine).asked() == old(engine).asked() + asked && #[trigger] asks(
                    asked,
                    old(link)@,
                    old(output)@,
                    happening,
                    config.max_chunk_size,
                ),
{
    let low_water: usize = config.write_low_water;
    let ghost start = link@;
    let ghost sent = output@;
    let ghost mut happening = Happening::Idle;
    let ghost record = engine.asked();
    let ghost mut asked: Seq<Asked> = Seq::empty();
    assert(record + asked =~= record);
    match signal {
        Signal::HandshakeDataReady => {
            let alpn = engine::alpn(engine);
            proof {
                happening = Happening::HandshakeDataReady { alpn: bytes_view(alpn) };
                asked = seq![Asked::Alpn { alpn: bytes_view(alpn) }];
                assert(engine.asked() =~= record + asked);
            }
            link.alpn = alpn;
            proof {
                start.lemma_same_books(link@);
            }
        },
        Signal::Connected => {
            let peer = engine::peer(engine);
            proof {
                happening = Happening::Connected { peer: peer@ };
                asked = seq![Asked::Peer { peer: peer@ }];
                assert(engine.asked() =~= record + asked);
            }
            link.connected(peer, output);
        },
        Signal::Lost { reason, application } => {
            proof {
                happening = Happening::Lost {
                    reason: reason@,
                    application: close_view(application),
                };
            }
            link.lost(reason, application, output);
        },
        Signal::Stream(event) => {
            let signal = engine::stream_signal(event);
            enter_stream_signal(engine, link, signal, config, output);
            proof {
                happening = choose|happening: Happening|
                    (link@, output@) == #[trigger] happen(
                        start,
                        sent,
                        happening,
                        low_water as int,
                    ) && stream_reports(signal, happening) && exists|asked: Seq<Asked>|
                        engine.asked() == record + asked && #[trigger] asks(
                            asked,
                            start,
                            sent,
                            happening,
                            config.max_chunk_size,
                        );
                asked = choose|asked: Seq<Asked>|
                    engine.asked() == record + asked && #[trigger] asks(
                        asked,
                        start,
                        sent,
                        happening,
                        config.max_chunk_size,
                    );
            }
        },
        Signal::DatagramReceived => {
            take_datagrams(engine, link, output);
            proof {
                let data = choose|data: Seq<Seq<u8>>|
                    (link@, output@) == #[trigger] datagrams_all(start, sent, data)
                        && exists|asked: Seq<Asked>|
                        engine.asked() == record + asked && #[trigger] exhausted(
                            asked,
                            datagrams_asked(data),
                            Asked::Receive { data: None },
                            data.len(),
                        );
                happening = Happening::Datagrams { data };
                asked = choose|asked: Seq<Asked>|
                    engine.asked() == record + asked && #[trigger] exhausted(
                        asked,
                        datagrams_asked(data),
                        Asked::Receive { data: None },
                        data.len(),
                    );
            }
        },
        Signal::DatagramsUnblocked => {},
    }
    assert(asks(asked, start, sent, happening, config.max_chunk_size));
    assert((link@, output@) == happen(start, sent, happening, low_water as int));
}

/// The entry is one that the report can have.
pub open spec fn reports(signal: Signal, happening: Happening) -> bool {
    match signal {
        Signal::HandshakeDataReady => happening is HandshakeDataReady,
        Signal::Connected => happening is Connected,
        Signal::Lost { reason, application } => happening == (Happening::Lost {
            reason: reason@,
            application: close_view(application),
        }),
        Signal::Stream(event) => stream_reports(stream_news(event), happening),
        Signal::DatagramReceived => happening is Datagrams,
        Signal::DatagramsUnblocked => happening is Idle,
    }
}

/// Enters everything the engine has to report of a connection.
pub fn poll_application(
    engine: &mut Engine,
    link: &mut Link,
    config: &QuicConfig,
    output: &mut DriveOutput,
)
    requires
        old(link)@.wf(),
        old(engine).server() == old(link)@.is_server(),
    ensures
        final(link)@.wf(),
        final(link)@.id == old(link)@.id,
        final(link)@.listener == old(link)@.listener,
        final(engine).server() == old(engine).server(),
        exists|happenings: Seq<Happening>|
            (final(link)@, final(output)@) == #[trigger] happen_all(
                old(link)@,
                old(output)@,
                happenings,
                config.write_low_water as int,
            ) && exists|asked: Seq<Asked>, signals: Seq<Signal>, pieces: Seq<Seq<Asked>>|
                {
                    &&& final(engine).asked() == old(engine).asked() + asked
                    &&& asks_all(signals, pieces, old(link)@, old(output)@, happenings, *config)
                    &&& #[trigger] exhausted(
                        asked,
                        polled(signals, pieces),
                        Asked::Poll { signal: None },
                        happenings.len(),
                    )
                },
{
    let ghost mut happenings: Seq<Happening> = Seq::empty();
    let ghost mut signals: Seq<Signal> = Seq::empty();
    let ghost mut pieces: Seq<Seq<Asked>> = Seq::empty();
    let mut turns: u64 = u64::MAX;
    let mut more = true;
    assert(old(engine).asked() + polled(signals, pieces) =~= old(engine).asked());
    while more && turns > 0
        invariant
            happenings.len() + turns == u64::MAX || !more,
            asks_all(signals, pieces, old(link)@, old(output)@, happenings, *config),
            pieces.len() == happenings.len(),
            signals.len() == happenings.len(),
            more ==> engine.asked() == old(engine).asked() + polled(signals, pieces),
            !more ==> engine.asked() == old(engine).asked() + polled(signals, pieces).push(
                Asked::Poll { signal: None },
            ),
            link@.wf(),
            link@.id == old(link)@.id,
            link@.listener == old(link)@.listener,
            engine.server() == old(engine).server(),
            engine.server() == link@.is_server(),
            (link@, output@) == happen_all(
                old(link)@,
                old(output)@,
                happenings,
                config.write_low_water as int,
            ),
        decreases turns,
    {
        let next = engine::next_signal(engine);
        match next {
            None => {
                more = false;
                assert(engine.asked() =~= old(engine).asked() + polled(signals, pieces).push(
                    Asked::Poll { signal: None },
                ));
            },
            Some(signal) => {
                let ghost heard = signal;
                let ghost l = link@;
                let ghost o = output@;
                let ghost record = engine.asked();
                enter_signal(engine, link, signal, config, output);
                proof {
                    let happening = choose|happening: Happening|
                        (link@, output@) == #[trigger] happen(
                            l,
                            o,
                            happening,
                            config.write_low_water as int,
                        ) && reports(heard, happening) && exists|asked: Seq<Asked>|
                            engine.asked() == record + asked && #[trigger] asks(
                                asked,
                                l,
                                o,
                                happening,
                                config.max_chunk_size,
                            );
                    let piece = choose|asked: Seq<Asked>|
                        engine.asked() == record + asked && #[trigger] asks(
                            asked,
                            l,
                            o,
                            happening,
                            config.max_chunk_size,
                        );
                    let earlier = happenings;
                    let before = pieces;
                    happenings = happenings.push(happening);
                    assert(happenings.drop_last() =~= earlier);
                    let told = signals;
                    signals = signals.push(heard);
                    assert(signals.drop_last() =~= told);
                    pieces = pieces.push(piece);
                    assert(pieces.drop_last() =~= before);
                    assert(engine.asked() =~= old(engine).asked() + polled(signals, pieces));
                }
            },
        }
        turns = turns - 1;
    }
    proof {
        let asked = if more {
            polled(signals, pieces)
        } else {
            polled(signals, pieces).push(Asked::Poll { signal: None })
        };
        assert(exhausted(asked, polled(signals, pieces), Asked::Poll { signal: None }, happenings.len()));
    }
    assert((link@, output@) == happen_all(
        old(link)@,
        old(output)@,
        happenings,
        config.write_low_water as int,
    ));
}

} // verus!
