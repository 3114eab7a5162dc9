//! What holds of the client's exchanges: how responses come in, how requests go out, and how
//! connections are found and given back.

#[allow(unused_imports)]
use crate::http::body::{collected, BodySource, BodySpec, IncomingBody};
#[allow(unused_imports)]
use crate::http::call::{head_whole, head_write, stage_of, Proto, Stage};
#[allow(unused_imports)]
use crate::http::client::{
    without_token, ClientView, QueuedStartView, StartRequestView, Started,
};
#[allow(unused_imports)]
use crate::http::effect::{AnswerView, EffectView};
#[allow(unused_imports)]
use crate::http::error::HttpErrorView;
#[allow(unused_imports)]
use crate::http::exchange::{
    proto_after, proto_step, total, waiting_for, AwaitNext, BodyNext, DriveView, ExchangeView,
    HeadNext, Step,
};
#[allow(unused_imports)]
use crate::http::headers::{
    chunked_word, decimal_bytes, first_value, framing_fault, framing_header, lemma_decimal_bytes,
    lemma_decimal_reads_back, length_value, lower_byte, CONTENT_LENGTH, TRANSFER_ENCODING,
};
#[allow(unused_imports)]
use crate::http::origin::{origin_of, OriginView};
#[allow(unused_imports)]
use crate::http::pool::{first_to, lemma_without_line, lines_to, lists, without_line};
#[allow(unused_imports)]
use crate::http::request::{
    body_room, head_run, head_stalled, head_with, room_for, FinishNote, LateNote, WireView,
    WriteNote,
};
#[allow(unused_imports)]
use crate::http::server_laws::{bytes_of, lemma_bytes_pushed};
#[allow(unused_imports)]
use crate::http::start::{PreparedView, StartNextView};
use crate::http::transport::TransportId;
use crate::net::socket::Pending;
#[allow(unused_imports)]
use crate::places::{first_place, lemma_first_place, lemma_first_place_is};
#[allow(unused_imports)]
use crate::text::decimal;
use ureq_proto::client::state::SendRequest;
use ureq_proto::client::Call;
use ureq_proto::http::{HeaderMap, Response};
use vstd::prelude::*;

verus! {

/// The part of a response's body that a step brings.
pub open spec fn body_part(step: Step) -> Seq<u8> {
    match step {
        Step::Body { used, data, next } => data,
        _ => Seq::empty(),
    }
}

/// What a step takes off the input.
pub open spec fn taken_off(step: Step) -> int {
    match step {
        Step::Await { used, next } => used,
        Step::Head { used, response, next } => used,
        Step::Body { used, data, next } => used,
        _ => 0,
    }
}

/// A part of a response's body is held behind those that came before, what it took is off the front
/// of the input and nothing else is.
pub proof fn law_what_comes_is_held_in_order(view: DriveView, step: Step, id: u64, limit: usize)
    requires
        0 <= taken_off(step) <= view.exchange.input.len(),
    ensures
        bytes_of(view.next(step, id, limit).exchange.chunks) == bytes_of(view.exchange.chunks)
            + body_part(step),
        view.exchange.input == view.exchange.input.take(taken_off(step)) + view.next(
            step,
            id,
            limit,
        ).exchange.input,
        view.next(step, id, limit).exchange.transport == view.exchange.transport,
        view.next(step, id, limit).exchange.origin == view.exchange.origin,
        view.next(step, id, limit).exchange.body_waiter == view.exchange.body_waiter,
{
    let after = view.next(step, id, limit);
    if let Step::Body { used, data, next } = step {
        lemma_bytes_pushed(view.exchange.chunks, data);
    }
    assert(bytes_of(after.exchange.chunks) =~= bytes_of(view.exchange.chunks) + body_part(step));
    assert(view.exchange.input =~= view.exchange.input.take(taken_off(step))
        + after.exchange.input);
}

/// The parts that several steps bring.
pub open spec fn body_parts(steps: Seq<Step>) -> Seq<u8>
    decreases steps.len(),
{
    if steps.len() == 0 {
        Seq::empty()
    } else {
        body_parts(steps.drop_last()) + body_part(steps.last())
    }
}

/// Whatever the steps in which a response is read, the body's bytes are held in the order in which
/// the protocol brought them, behind what was held before.
pub proof fn law_reading_keeps_the_order(
    view: DriveView,
    steps: Seq<Step>,
    id: u64,
    limit: usize,
    room: int,
)
    requires
        view.admits(steps, id, limit, room),
    ensures
        bytes_of(view.run(steps, id, limit).exchange.chunks) == bytes_of(view.exchange.chunks)
            + body_parts(steps),
    decreases steps.len(),
{
    if steps.len() > 0 {
        law_reading_keeps_the_order(view, steps.drop_last(), id, limit, room);
        law_what_comes_is_held_in_order(
            view.run(steps.drop_last(), id, limit),
            steps.last(),
            id,
            limit,
        );
    }
    assert(bytes_of(view.run(steps, id, limit).exchange.chunks) =~= bytes_of(view.exchange.chunks)
        + body_parts(steps));
}

/// The head of a response goes to whoever waits for it, with the body of this exchange, or is kept
/// until somebody asks; a response without a body is over with its head.
pub proof fn law_a_response_reaches_who_waits_for_it(
    view: DriveView,
    used: int,
    response: Response<()>,
    next: HeadNext,
    id: u64,
    limit: usize,
)
    requires
        0 <= used <= view.exchange.input.len(),
        !(next is Stuck),
    ensures
        ({
            let after = view.next(Step::Head { used, response, next }, id, limit);
            &&& view.exchange.response_waiter matches Some(waiting) ==> {
                &&& after.exchange.response_taken
                &&& after.exchange.response_waiter is None
                &&& waiting.session != 0 ==> after.effects == view.effects.push(
                    EffectView::Reply {
                        pending: waiting,
                        answer: AnswerView::Response {
                            response,
                            body: IncomingBody::fresh(
                                BodySource::Client { exchange: id, source: waiting.source },
                            ),
                        },
                    },
                )
            }
            &&& view.exchange.response_waiter is None ==> after.effects == view.effects
                && after.exchange.response == Some(response)
            &&& next is Body ==> after.exchange.proto == Some(Stage::RecvBody)
                && after.exchange.body_ended == view.exchange.body_ended
            &&& next matches HeadNext::Over(reusable) ==> after.exchange.body_ended
                && after.exchange.reusable == Some(reusable) && after.exchange.proto == Some(
                Stage::Done,
            )
            &&& after.exchange.error == view.exchange.error
        }),
{
}

/// The last part of a body ends it and says whether the connection serves again; any other part
/// leaves that open.
pub proof fn law_the_last_part_ends_a_body(
    view: DriveView,
    used: int,
    data: Seq<u8>,
    reusable: bool,
    id: u64,
    limit: usize,
)
    ensures
        ({
            let over = view.next(
                Step::Body { used, data, next: BodyNext::Over(reusable) },
                id,
                limit,
            ).exchange;
            let more = view.next(
                Step::Body { used, data, next: BodyNext::More },
                id,
                limit,
            ).exchange;
            &&& over.body_ended && over.reusable == Some(reusable)
            &&& more.body_ended == view.exchange.body_ended && more.reusable
                == view.exchange.reusable
            &&& more.proto == view.exchange.proto
        }),
{
}

/// A reader of a response's body gets what is held in order: the part that is handed out and those
/// that are left are what was held. The end is told only when nothing is held and all has come.
pub proof fn law_a_body_is_handed_out_in_order(x: ExchangeView, pending: Pending, low: usize)
    ensures
        x.next_answer() matches Some(AnswerView::Chunk(Some(part))) ==> part + bytes_of(
            x.next_asked(pending, low).chunks,
        ) == bytes_of(x.chunks),
        x.chunks.len() > 0 ==> (x.next_answer() matches Some(AnswerView::Chunk(Some(_)))),
        x.chunks.len() == 0 ==> x.next_asked(pending, low).chunks.len() == 0,
        x.next_answer() matches Some(AnswerView::Chunk(None)) ==> x.chunks.len() == 0
            && x.body_ended && x.error is None,
        x.chunks.len() == 0 && x.error is None && x.body_ended ==> (x.next_answer() matches Some(
            AnswerView::Chunk(None),
        )),
        x.chunks.len() == 0 && x.error is Some ==> x.next_answer() == Some(
            AnswerView::Failed(HttpErrorView::Transport(x.error->0)),
        ),
        x.chunks.len() == 0 && x.error is None && !x.body_ended && x.body_waiter is None
            ==> x.next_answer() is None && x.next_asked(pending, low).body_waiter == Some(pending),
        x.next_asked(pending, low).input == x.input,
{
    if x.chunks.len() > 0 {
        assert(x.chunks.skip(1) =~= x.chunks.drop_first());
    }
}

/// A reader that waits is given the first part that is held when there is one, and only then; what
/// it is given and what is left are what was held. A reader that cannot be answered goes on
/// waiting.
pub proof fn law_a_waiting_reader_is_served_in_order(
    x: ExchangeView,
    effects: Seq<EffectView>,
    high: usize,
)
    requires
        x.body_waiter is Some,
        x.body_waiter->0.session != 0,
        x.error is None,
    ensures
        x.chunks.len() > 0 ==> {
            &&& x.settled(high).body_waiter is None
            &&& x.settling(effects) == effects.push(
                EffectView::Reply {
                    pending: x.body_waiter->0,
                    answer: AnswerView::Chunk(Some(x.chunks[0])),
                },
            )
            &&& x.chunks[0] + bytes_of(x.settled(high).chunks) == bytes_of(x.chunks)
        },
        x.chunks.len() == 0 && !x.body_ended ==> x.settled(high).body_waiter == x.body_waiter
            && x.settling(effects) == effects,
        x.chunks.len() == 0 && x.body_ended ==> x.settling(effects) == effects.push(
            EffectView::Reply {
                pending: x.body_waiter->0,
                answer: AnswerView::Chunk(None),
            },
        ),
{
    if x.chunks.len() > 0 {
        assert(x.chunks.skip(1) =~= x.chunks.drop_first());
    }
}

/// Nobody is given a part of a body that did not ask for one.
pub proof fn law_parts_are_kept_for_readers(x: ExchangeView, high: usize)
    requires
        x.body_waiter is None,
    ensures
        x.settled(high).chunks == x.chunks,
        x.settled(high).input == x.input,
{
}

/// An exchange that broke is told to whoever waits for its response.
pub proof fn law_a_broken_exchange_is_told(
    x: ExchangeView,
    effects: Seq<EffectView>,
    high: usize,
    reason: Seq<char>,
)
    requires
        x.error == Some(reason),
        x.body_waiter is None,
        x.response_waiter is Some,
        x.response_waiter->0.session != 0,
    ensures
        x.settling(effects) == effects.push(
            EffectView::Reply {
                pending: x.response_waiter->0,
                answer: AnswerView::Failed(HttpErrorView::Protocol(reason)),
            },
        ),
        x.settled(high).response_waiter is None,
{
}

/// A connection pauses only when too much is held and resumes only when little is.
pub proof fn law_a_full_exchange_pauses(x: ExchangeView, low: usize, high: usize)
    ensures
        x.to_pause(high) <==> !x.body_ended && !x.paused && x.input.len() + bytes_of(
            x.chunks,
        ).len() >= high,
        x.to_resume(low) <==> x.paused && x.input.len() + bytes_of(x.chunks).len() <= low,
        x.served().to_pause(high) ==> x.settled(high).paused,
        !x.served().to_pause(high) ==> x.settled(high).paused == x.paused,
{
    lemma_held(x.chunks);
}

proof fn lemma_held(parts: Seq<Seq<u8>>)
    ensures
        total(parts) == bytes_of(parts).len(),
    decreases parts.len(),
{
    if parts.len() > 0 {
        lemma_held(parts.drop_last());
        lemma_bytes_pushed(parts.drop_last(), parts.last());
        assert(parts.drop_last().push(parts.last()) =~= parts);
    }
}

/// A chunk that waits for leave is sent when leave comes, as it is and for the one who handed it
/// over; where the server does not want it, that one is told so and the chunk is not sent.
pub proof fn law_leave_decides_about_the_waiting_chunk(
    view: DriveView,
    used: int,
    id: u64,
    limit: usize,
)
    requires
        view.exchange.write_waiter is Some,
        (view.exchange.write_waiter->0).0.session != 0,
        view.job is None,
    ensures
        ({
            let waiting = view.exchange.write_waiter->0;
            let given = view.next(Step::Await { used, next: AwaitNext::SendBody }, id, limit);
            let denied = view.next(Step::Await { used, next: AwaitNext::RecvResponse }, id, limit);
            let open = view.next(Step::Await { used, next: AwaitNext::Keep }, id, limit);
            &&& given.job == Some(waiting)
            &&& given.effects == view.effects
            &&& given.exchange.write_waiter is None
            &&& given.exchange.proto == Some(Stage::SendBody)
            &&& denied.job is None
            &&& denied.exchange.request_finished
            &&& denied.exchange.write_waiter is None
            &&& denied.effects == view.effects.push(
                EffectView::Reply {
                    pending: waiting.0,
                    answer: AnswerView::Failed(HttpErrorView::RequestBodyRejected),
                },
            )
            &&& open.job is None
            &&& open.exchange.write_waiter == view.exchange.write_waiter
        }),
{
}

/// A server that does not say in time whether it wants the body is sent the waiting chunk; a chunk
/// is kept back only where leave is awaited, and only one is.
pub proof fn law_silence_is_leave(
    x: ExchangeView,
    effects: Seq<EffectView>,
    pending: Pending,
    chunk: Seq<u8>,
)
    requires
        x.proto == Some(Stage::Await100),
        chunk.len() > 0,
    ensures
        x.late(LateNote::SendBody).proto == Some(Stage::SendBody),
        x.late(LateNote::SendBody).write_waiter is None,
        x.late_job(LateNote::SendBody) == x.write_waiter,
        x.late_effects(effects, LateNote::SendBody) == effects,
        x.late_job(LateNote::RecvResponse) is None,
        x.late_reads(LateNote::RecvResponse),
        !x.late_reads(LateNote::SendBody),
        !(ExchangeView { proto: Some(Stage::SendBody), ..x }).late_reads(LateNote::RecvResponse),
        x.defers(chunk),
        !x.defers(Seq::empty()),
        !(ExchangeView { proto: Some(Stage::SendBody), ..x }).defers(chunk),
        x.write_waiter is None ==> x.deferred(pending, chunk).write_waiter == Some(
            (pending, chunk),
        ) && x.deferring(effects, pending) == effects,
        x.write_waiter is Some ==> x.deferred(pending, chunk) == x && (pending.session != 0
            ==> x.deferring(effects, pending).len() == effects.len() + 1),
{
}

/// The bytes that the protocol makes of a chunk are sent on the exchange's own connection, and only
/// where it took the whole chunk; each chunk counts for its size.
pub proof fn law_encoded_bytes_are_sent_as_they_are(
    x: ExchangeView,
    size: int,
    used: int,
    data: Seq<u8>,
)
    requires
        0 <= used <= size,
    ensures
        used == size ==> x.write_result(size, WriteNote::Wrote { used, data }) == (WireView::Send {
            transport: x.transport,
            data,
        }),
        used == size && x.request_written + size <= u64::MAX ==> x.after_write(
            size,
            WriteNote::Wrote { used, data },
        ).request_written == x.request_written + size,
        used < size ==> x.write_result(size, WriteNote::Wrote { used, data }) is Answer
            && x.after_write(size, WriteNote::Wrote { used, data }) == x,
        x.finish_result(FinishNote::Over(data)) == (WireView::Send {
            transport: x.transport,
            data,
        }),
        x.after_finish(FinishNote::Over(data)).request_finished,
        x.after_finish(FinishNote::Over(data)).proto == Some(Stage::RecvResponse),
        x.after_finish(FinishNote::More).proto == Some(Stage::SendBody),
        x.after_finish(FinishNote::More).request_finished == x.request_finished,
        x.after_finish(FinishNote::Lost).proto is None,
        x.write_obstacle() is None <==> !x.request_finished && x.proto == Some(Stage::SendBody),
{
}

/// A request whose body has an announced length is finished only when so much was written;
/// otherwise both lengths are told.
pub proof fn law_a_request_has_its_announced_length(x: ExchangeView, expected: u64)
    requires
        !x.request_finished,
        x.request_expected == Some(expected),
        x.proto == Some(Stage::SendBody),
    ensures
        x.request_written == expected ==> x.finish_answer() is None,
        x.request_written != expected ==> x.finish_answer() == Some(
            AnswerView::Failed(
                HttpErrorView::BodyLengthMismatch { expected, actual: x.request_written },
            ),
        ) && x.finish_asked() == x,
{
}

/// A request whose end the protocol has already seen is finished without more bytes, and stays so;
/// while leave is awaited it cannot be finished.
pub proof fn law_a_finished_request_stays_finished(x: ExchangeView)
    requires
        x.request_expected is None,
    ensures
        x.request_finished ==> x.finish_answer() == Some(AnswerView::Done) && x.finish_asked() == x,
        !x.request_finished && x.proto == Some(Stage::RecvResponse) ==> x.finish_answer() == Some(
            AnswerView::Done,
        ) && x.finish_asked().request_finished,
        !x.request_finished && x.proto == Some(Stage::Await100) ==> (x.finish_answer() matches Some(
            AnswerView::Failed(_),
        )) && x.finish_asked() == x,
        !x.request_finished && x.proto == Some(Stage::SendBody) ==> x.finish_answer() is None,
{
}

/// A head is its parts one behind the other, within the limit; a buffer for a chunk has room for
/// the chunk and its frame.
pub proof fn law_a_head_is_its_parts(
    head: Seq<u8>,
    part: Seq<u8>,
    limit: usize,
    stalled: Seq<char>,
    size: int,
)
    requires
        0 <= size,
    ensures
        0 < part.len() && head.len() + part.len() <= limit ==> head_with(
            head,
            part,
            limit,
            stalled,
        ) == Ok::<Seq<u8>, HttpErrorView>(head + part),
        head.len() + part.len() > limit || part.len() == 0 ==> head_with(
            head,
            part,
            limit,
            stalled,
        ) is Err,
        size + 32 <= usize::MAX ==> size + 32 <= body_room(size) <= size + 64,
        body_room(size) >= 64,
{
}

/// A body that is collected is its parts one behind the other, up to the limit and not beyond.
pub proof fn law_a_collected_body_is_its_parts(all: Seq<u8>, chunk: Seq<u8>, limit: usize)
    ensures
        all.len() + chunk.len() <= limit ==> collected(all, chunk, limit) == Ok::<
            Seq<u8>,
            HttpErrorView,
        >(all + chunk),
        all.len() + chunk.len() > limit ==> collected(all, chunk, limit) is Err,
{
}

/// A body without a length is announced as chunked, one with a length by that length, written so
/// that it reads back; an announcement that contradicts the body is refused.
pub proof fn law_a_body_is_announced_as_it_is(headers: HeaderMap, size: u64)
    requires
        first_value(headers, CONTENT_LENGTH@) is None,
        first_value(headers, TRANSFER_ENCODING@) is None,
    ensures
        framing_header(headers, BodySpec::Fixed(size)) == Some(
            (CONTENT_LENGTH@, decimal_bytes(size as nat)),
        ),
        framing_header(headers, BodySpec::Chunked) == Some((TRANSFER_ENCODING@, chunked_word())),
        framing_header(headers, BodySpec::Empty) is None,
        framing_fault(headers, BodySpec::Fixed(size)) is None,
        framing_fault(headers, BodySpec::Chunked) is None,
        framing_fault(headers, BodySpec::Empty) is None,
        BodySpec::Fixed(size).size() == Some(size),
        BodySpec::Empty.size() == Some(0u64),
        BodySpec::Chunked.size() is None,
{
}

/// A length that is announced and is another than the body's is refused, and so are two
/// announcements at once.
pub proof fn law_a_wrong_announcement_is_refused(headers: HeaderMap, spec: BodySpec)
    ensures
        first_value(headers, CONTENT_LENGTH@) is Some && first_value(headers, TRANSFER_ENCODING@)
            is Some ==> framing_fault(headers, spec) is Some,
        (spec matches BodySpec::Fixed(size) && (first_value(headers, CONTENT_LENGTH@) matches Some(
            value,
        ) && length_value(value) != Some(size))) ==> framing_fault(headers, spec) is Some,
        spec is Chunked && first_value(headers, CONTENT_LENGTH@) is Some ==> framing_fault(
            headers,
            spec,
        ) is Some,
        spec is Empty && first_value(headers, TRANSFER_ENCODING@) is Some ==> framing_fault(
            headers,
            spec,
        ) is Some,
{
}

/// Bytes that come in are behind what came in before for the exchange that uses the connection, and
/// no other exchange is touched; on a connection that no exchange uses nothing may come: it is
/// closed and forgotten.
pub proof fn law_bytes_go_to_the_exchange_of_their_connection(
    client: ClientView,
    transport: TransportId,
    data: Seq<u8>,
    effects: Seq<EffectView>,
    steps: Seq<Step>,
    other: u64,
)
    requires
        client.active.dom().contains(transport.number()) ==> other
            != client.active[transport.number()],
    ensures
        ({
            let after = client.arrived(transport, data, effects, steps);
            &&& after.client.exchanges.dom().contains(other) == client.exchanges.dom().contains(
                other,
            )
            &&& client.exchanges.dom().contains(other) ==> after.client.exchanges[other]
                == client.exchanges[other]
            &&& !client.active.dom().contains(transport.number()) ==> after.effects
                == effects.push(EffectView::Shutdown(transport)) && !lists(
                after.client.lines,
                transport,
            ) && !lists(after.client.idle, transport)
        }),
        client.active.dom().contains(transport.number()) && client.exchanges.dom().contains(
            client.active[transport.number()],
        ) ==> client.fed(client.active[transport.number()], data).exchanges[
        client.active[transport.number()]].input == client.exchanges[
        client.active[transport.number()]].input + data,
{
    lemma_without_line(client.lines, transport);
    lemma_without_line(client.idle, transport);
}

/// A body that lasts until its connection closes is whole when it closes; any other exchange is
/// then given up, and whoever waits for its response or its body is told.
pub proof fn law_a_closed_connection_ends_its_exchange(
    client: ClientView,
    transport: TransportId,
    failed: bool,
    until: bool,
    effects: Seq<EffectView>,
    steps: Seq<Step>,
)
    requires
        client.active.dom().contains(transport.number()),
        client.exchanges.dom().contains(client.active[transport.number()]),
        client.exchanges[client.active[transport.number()]].transport == transport,
    ensures
        ({
            let id = client.active[transport.number()];
            let after = client.closed(transport, failed, until, effects, steps);
            &&& !(until && !failed) ==> !after.client.exchanges.dom().contains(id)
            &&& until && !failed ==> client.forgot(transport).closed_off(id).exchanges[id].body_ended
                && client.forgot(transport).closed_off(id).exchanges[id].chunks
                == client.exchanges[id].chunks && client.forgot(transport).closed_off(
                id,
            ).exchanges[id].reusable == Some(false)
            &&& !(until && !failed) ==> told_in(
                after.effects,
                client.exchanges[id].response_waiter,
            ) && told_in(after.effects, client.exchanges[id].body_waiter)
        }),
{
    let id = client.active[transport.number()];
    if !(until && !failed) {
        lemma_canceling(client.forgot(transport), id, effects);
    }
}

/// Whoever waits gets an answer that it failed.
pub open spec fn told_in(effects: Seq<EffectView>, waiting: Option<Pending>) -> bool {
    waiting matches Some(pending) ==> pending.session != 0 ==> effects.contains(
        EffectView::Reply { pending, answer: AnswerView::Failed(HttpErrorView::Canceled) },
    )
}

/// An exchange that is given up has its connection closed, and everybody who waits on it is told.
pub proof fn law_a_canceled_exchange_leaves_nobody_waiting(
    client: ClientView,
    id: u64,
    effects: Seq<EffectView>,
)
    requires
        client.exchanges.dom().contains(id),
    ensures
        !client.canceled(id).exchanges.dom().contains(id),
        client.canceling(id, effects).contains(
            EffectView::Shutdown(client.exchanges[id].transport),
        ),
        told_in(client.canceling(id, effects), client.exchanges[id].response_waiter),
        told_in(client.canceling(id, effects), client.exchanges[id].body_waiter),
        told_in(client.canceling(id, effects), waiting_for(client.exchanges[id].write_waiter)),
        client.canceling(id, effects).last() is Wake,
        forall|i: int|
            0 <= i < client.canceled(id).started.len() ==> (
            #[trigger] client.canceled(id).started[i]).exchange != id,
        forall|other: u64|
            other != id && client.exchanges.dom().contains(other)
                ==> #[trigger] client.canceled(id).exchanges[other] == client.exchanges[other]
                && client.canceled(id).exchanges.dom().contains(other),
{
    lemma_canceling(client, id, effects);
    broadcast use vstd::seq_lib::group_filter_ensures;

    let other = |s: Started| s.exchange != id;
    let left = client.started.filter(other);
    assert(client.canceled(id).started == left);
    assert forall|i: int| 0 <= i < left.len() implies (#[trigger] left[i]).exchange != id by {
        assert(other(left[i]));
    }
}

proof fn lemma_canceling(client: ClientView, id: u64, effects: Seq<EffectView>)
    requires
        client.exchanges.dom().contains(id),
    ensures
        client.canceling(id, effects).contains(
            EffectView::Shutdown(client.exchanges[id].transport),
        ),
        told_in(client.canceling(id, effects), client.exchanges[id].response_waiter),
        told_in(client.canceling(id, effects), client.exchanges[id].body_waiter),
        told_in(client.canceling(id, effects), waiting_for(client.exchanges[id].write_waiter)),
        client.canceling(id, effects).last() is Wake,
{
    let x = client.exchanges[id];
    let failed = AnswerView::Failed(HttpErrorView::Canceled);
    let all = client.canceling(id, effects);
    let first = effects.push(EffectView::Shutdown(x.transport));
    assert(first[effects.len() as int] == EffectView::Shutdown(x.transport));
    assert(all[effects.len() as int] == EffectView::Shutdown(x.transport));
    let second = crate::http::effect::reply_to(first, x.response_waiter, failed);
    let third = crate::http::effect::reply_to(second, x.body_waiter, failed);
    let fourth = crate::http::effect::reply_to(third, waiting_for(x.write_waiter), failed);
    if x.response_waiter is Some && x.response_waiter->0.session != 0 {
        assert(all[first.len() as int] == second[first.len() as int]);
    }
    if x.body_waiter is Some && x.body_waiter->0.session != 0 {
        assert(all[second.len() as int] == third[second.len() as int]);
    }
    if waiting_for(x.write_waiter) is Some && waiting_for(x.write_waiter)->0.session != 0 {
        assert(all[third.len() as int] == fourth[third.len() as int]);
    }
}

/// An exchange that is over leaves a connection that serves again idle, behind those that are idle
/// already, where the limits allow that; otherwise the connection is closed. No exchange uses it
/// then.
pub proof fn law_a_connection_is_kept_or_closed(
    client: ClientView,
    transport: TransportId,
    origin: OriginView,
    reusable: bool,
    effects: Seq<EffectView>,
)
    ensures
        ({
            let after = client.recycled(transport, origin, reusable);
            let done = client.recycling(transport, origin, reusable, effects);
            let kept = reusable && client.idle.len() < client.config.max_idle_connections
                && lines_to(client.idle, origin) < client.config.max_idle_connections_per_origin;
            &&& !after.active.dom().contains(transport.number())
            &&& kept ==> after.idle == client.idle.push((transport, origin)) && after.lines
                == client.lines
            &&& kept && !effects.contains(EffectView::Shutdown(transport)) ==> !done.contains(
                EffectView::Shutdown(transport),
            )
            &&& kept ==> after.generations.dom().contains(transport.number())
                && after.generations[transport.number()] == after.next_generation
            &&& !kept ==> !lists(after.lines, transport) && !lists(after.idle, transport)
                && done.contains(EffectView::Shutdown(transport))
            &&& done.last() is Wake
            &&& after.exchanges == client.exchanges
        }),
{
    lemma_without_line(client.lines, transport);
    lemma_without_line(client.idle, transport);
    let kept = reusable && client.keeps_idle(origin);
    let done = client.recycling(transport, origin, reusable, effects);
    if !kept {
        assert(done[effects.len() as int] == EffectView::Shutdown(transport));
    } else {
        let after = client.recycled(transport, origin, reusable);
        assert(after.idle == client.idle.push((transport, origin)));
        if done.contains(EffectView::Shutdown(transport)) && !effects.contains(
            EffectView::Shutdown(transport),
        ) {
            let k = choose|k: int|
                0 <= k < done.len() && done[k] == EffectView::Shutdown(transport);
            if k < effects.len() {
                assert(effects[k] == done[k]);
            }
        }
    }
}

/// A request goes out on the connection that has been idle longest among those that lead to its
/// origin, which is then not idle any more; without one a new connection is made to that origin.
pub proof fn law_a_start_uses_an_idle_connection(
    client: ClientView,
    token: u64,
    pending: Pending,
    request: StartRequestView,
    effects: Seq<EffectView>,
    of: crate::http::call::RequestView,
    data: Seq<u8>,
    stage: Stage,
)
    requires
        origin_of(request.uri) is Ok,
        client.can_start(origin_of(request.uri)->Ok_0),
        client.next_id < u64::MAX,
    ensures
        ({
            let origin = origin_of(request.uri)->Ok_0;
            let view = client.starting(
                token,
                true,
                pending,
                request,
                effects,
                None,
                Some(of),
                Ok((data, stage)),
            );
            let place = first_to(client.idle, origin);
            if client.has_idle(origin) {
                &&& view.next matches StartNextView::Send(opening) && {
                    &&& opening.data == data
                    &&& opening.pending == pending
                    &&& client.idle[place].1 == origin
                    &&& opening.transport == client.idle[place].0
                    &&& forall|k: int| 0 <= k < place ==> (#[trigger] client.idle[k]).1 != origin
                    &&& view.client.exchanges.dom().contains(opening.id)
                    &&& view.client.exchanges[opening.id].transport == opening.transport
                    &&& view.client.exchanges[opening.id].origin == origin
                    &&& view.client.exchanges[opening.id].request_expected == request.spec.size()
                    &&& view.client.exchanges[opening.id].request_written == 0
                    &&& view.client.active[opening.transport.number()] == opening.id
                    &&& opening.id == client.next_id + 1
                }
                &&& view.client.idle == client.idle.remove(place)
                &&& !view.client.generations.dom().contains(client.idle[place].0.number())
                &&& view.effects == effects
            } else {
                &&& view.next matches StartNextView::Connect(prepared) && prepared.origin == origin
                    && prepared.pending == pending && prepared.of == Some(of) && prepared.spec
                    == request.spec
                &&& view.client.connecting == client.connecting.push(origin)
                &&& view.client.exchanges == client.exchanges
                &&& view.effects == effects
            }
        }),
{
    let origin = origin_of(request.uri)->Ok_0;
    lemma_first_line(client.idle, origin);
}

proof fn lemma_first_line(lines: Seq<(TransportId, OriginView)>, origin: OriginView)
    ensures
        0 <= first_to(lines, origin) <= lines.len(),
        first_to(lines, origin) < lines.len() ==> lines[first_to(lines, origin)].1 == origin,
        forall|k: int| 0 <= k < first_to(lines, origin) ==> (#[trigger] lines[k]).1 != origin,
    decreases lines.len(),
{
    if lines.len() > 0 {
        lemma_first_line(lines.drop_last(), origin);
        assert forall|k: int| 0 <= k < first_to(lines, origin) implies (#[trigger] lines[k]).1
            != origin by {
            if k < lines.len() - 1 {
                assert(lines[k] == lines.drop_last()[k]);
            }
        }
    }
}

/// A start for which there is no room waits behind those that wait, and is neither answered nor
/// refused; a start whose address is none is refused; one that nobody wants is dropped.
pub proof fn law_a_start_waits_its_turn(
    client: ClientView,
    token: u64,
    pending: Pending,
    request: StartRequestView,
    effects: Seq<EffectView>,
)
    requires
        pending.session != 0,
    ensures
        ({
            let stopped = client.stopped(token, true, pending, request, effects);
            match origin_of(request.uri) {
                Ok(origin) => if client.has_idle(origin) || client.has_room(origin) {
                    stopped is None
                } else {
                    &&& stopped is Some
                    &&& stopped->0.client.waiting == client.waiting.push(
                        QueuedStartView { token, pending, request },
                    )
                    &&& stopped->0.effects == effects
                    &&& stopped->0.client.exchanges == client.exchanges
                },
                Err(error) => {
                    &&& stopped is Some
                    &&& stopped->0.client == client
                    &&& stopped->0.effects.contains(
                        EffectView::Reply { pending, answer: AnswerView::Failed(error) },
                    )
                },
            }
        }),
        client.stopped(token, false, pending, request, effects) matches Some(view) && view.client
            == client && view.effects == effects.push(EffectView::Wake),
{
    if let Err(error) = origin_of(request.uri) {
        let told = client.stopped(token, true, pending, request, effects)->0.effects;
        assert(told[effects.len() as int] == (EffectView::Reply {
            pending,
            answer: AnswerView::Failed(error),
        }));
    }
}

/// Of the starts that wait, the first that can go on does: none before it could.
pub proof fn law_the_first_start_that_can_goes_on(client: ClientView, gone: Seq<u64>)
    ensures
        ({
            let wanted = client.wanted(gone);
            let place = client.ready_place(gone);
            &&& 0 <= place <= wanted.len()
            &&& place < wanted.len() ==> client.ready(wanted[place])
            &&& forall|k: int| 0 <= k < place ==> !client.ready(#[trigger] wanted[k])
        }),
{
    let holds = |q: QueuedStartView| client.ready(q);
    lemma_first_place(client.wanted(gone), holds);
    let wanted = client.wanted(gone);
    let place = client.ready_place(gone);
    assert forall|k: int| 0 <= k < place implies !client.ready(#[trigger] wanted[k]) by {
        assert(!holds(wanted[k]));
    }
    if place < wanted.len() {
        assert(holds(wanted[place]));
    }
}

/// A connection that was made carries the request that it was made for; one that could not be made
/// is told to whoever asked.
pub proof fn law_a_made_connection_carries_its_request(
    client: ClientView,
    prepared: PreparedView,
    transport: TransportId,
    data: Seq<u8>,
    stage: Stage,
    effects: Seq<EffectView>,
    error: HttpErrorView,
)
    requires
        client.next_id < u64::MAX,
        prepared.pending.session != 0,
    ensures
        ({
            let made = client.connecting_done(
                prepared,
                Ok(transport),
                true,
                Ok((data, stage)),
                effects,
            );
            let lost = client.connecting_done(prepared, Err(error), true, Ok((data, stage)), effects);
            &&& made.next matches StartNextView::Send(opening) && opening.data == data
                && opening.transport == transport && opening.pending == prepared.pending
                && made.client.active[transport.number()] == opening.id
                && made.client.exchanges[opening.id].origin == prepared.origin
            &&& made.effects == effects
            &&& lists(made.client.lines, transport)
            &&& lost.next is Done
            &&& lost.client.exchanges == client.exchanges
            &&& lost.effects.contains(
                EffectView::Reply {
                    pending: prepared.pending,
                    answer: AnswerView::Failed(error),
                },
            )
        }),
{
    let lost = client.connecting_done(prepared, Err(error), true, Ok((data, stage)), effects);
    assert(lost.effects[effects.len() as int] == (EffectView::Reply {
        pending: prepared.pending,
        answer: AnswerView::Failed(error),
    }));
    let made = client.connecting_done(prepared, Ok(transport), true, Ok((data, stage)), effects);
    let rest = without_line(client.lines, transport);
    assert(made.client.lines == rest.push((transport, prepared.origin)));
    assert(made.client.lines[rest.len() as int].0 == transport);
}

/// Whoever started an exchange gets its number when the head was sent; where it could not be sent,
/// the exchange is given up and that one is told why.
pub proof fn law_a_started_exchange_gets_its_number(
    client: ClientView,
    id: u64,
    pending: Pending,
    error: HttpErrorView,
    effects: Seq<EffectView>,
)
    requires
        client.exchanges.dom().contains(id),
        pending.session != 0,
    ensures
        client.opened(id, None, true) == client,
        client.opening(id, pending, None, true, effects).last() == (EffectView::Reply {
            pending,
            answer: AnswerView::Id(id),
        }),
        client.opening(id, pending, None, true, effects) == (if client.exchanges[id].proto == Some(
            Stage::Await100,
        ) {
            effects.push(
                EffectView::ContinueTimeout { id, after_ms: client.config.continue_timeout_ms },
            )
        } else {
            effects
        }).push(EffectView::Reply { pending, answer: AnswerView::Id(id) }),
        !client.opened(id, Some(error), true).exchanges.dom().contains(id),
        client.opening(id, pending, Some(error), true, effects).last() == (EffectView::Reply {
            pending,
            answer: AnswerView::Failed(error),
        }),
        !client.opened(id, None, false).exchanges.dom().contains(id),
{
}

/// A timeout gives up only the exchange whose reader still waits with the number that it was set
/// for, and that reader is told.
pub proof fn law_only_who_still_waits_times_out(
    client: ClientView,
    id: u64,
    session: u64,
    body: bool,
    effects: Seq<EffectView>,
)
    ensures
        client.late_waiter(id, session, body) is None ==> client.wait_over(id, session, body)
            == client && client.wait_effects(id, session, body, effects) == effects,
        client.late_waiter(id, session, body) is Some ==> client.exchanges.dom().contains(id)
            && client.late_waiter(id, session, body)->0.session == session && !client.wait_over(
            id,
            session,
            body,
        ).exchanges.dom().contains(id),
        client.exchanges.dom().contains(id) && body && client.exchanges[id].body_waiter is Some
            && client.exchanges[id].body_waiter->0.session == session ==> client.late_waiter(
            id,
            session,
            body,
        ) is Some,
        client.exchanges.dom().contains(id) && !body && client.exchanges[id].response_waiter is Some
            && client.exchanges[id].response_waiter->0.session == session ==> client.late_waiter(
            id,
            session,
            body,
        ) is Some,
{
}

/// An exchange whose body is read to its end is over, and its connection is given back; before that
/// it stays.
pub proof fn law_an_exchange_is_over_with_its_body(client: ClientView, id: u64, pending: Pending)
    requires
        client.exchanges.dom().contains(id),
    ensures
        ({
            let x = client.exchanges[id];
            let step = client.body_step(id, pending);
            let asked = client.with(id, x.next_asked(pending, client.config.input_low_water));
            &&& step.answer == x.next_answer()
            &&& step.leftover is Some ==> x.chunks.len() == 0 && x.body_ended && x.error is None
                && (step.leftover->0).0 == x.transport && (step.leftover->0).1 == x.origin
                && Some((step.leftover->0).2) == x.reusable
            &&& x.chunks.len() > 0 ==> step.leftover is None
            &&& step.leftover is Some ==> !asked.body_done(step).exchanges.dom().contains(id)
            &&& step.leftover is None ==> asked.body_done(step) == asked
        }),
{
}

/// Whoever asks for a response that is not there yet waits for it with a limit of time; one that is
/// there is answered, and of an exchange that is gone that is said.
pub proof fn law_a_response_is_waited_for(
    client: ClientView,
    id: u64,
    pending: Pending,
    effects: Seq<EffectView>,
    response: Response<()>,
)
    requires
        pending.session != 0,
    ensures
        ({
            let told = client.response_asking(id, pending, effects);
            let x = client.exchanges[id];
            &&& !client.exchanges.dom().contains(id) ==> told == effects.push(
                EffectView::Reply {
                    pending,
                    answer: AnswerView::Failed(HttpErrorView::BodyClosed),
                },
            )
            &&& client.exchanges.dom().contains(id) && x.error is None && !x.response_taken
                && x.response == Some(response) ==> told == effects.push(
                EffectView::Reply {
                    pending,
                    answer: AnswerView::Response {
                        response,
                        body: IncomingBody::fresh(
                            BodySource::Client { exchange: id, source: pending.source },
                        ),
                    },
                },
            )
            &&& client.exchanges.dom().contains(id) && x.error is None && !x.response_taken
                && x.response is None && x.response_waiter is None ==> told == effects.push(
                EffectView::WaitTimeout {
                    id,
                    session: pending.session,
                    body: false,
                    after_ms: client.config.response_head_timeout_ms,
                },
            ) && x.response_asked(pending).response_waiter == Some(pending)
        }),
{
}

/// A response is taken once.
pub proof fn law_a_response_is_taken_once(x: ExchangeView, id: u64, first: Pending, second: Pending)
    requires
        x.response is Some,
        x.error is None,
        !x.response_taken,
    ensures
        x.response_answer(id, first) matches Some(AnswerView::Response { .. }),
        x.response_asked(first).response is None,
        x.response_asked(first).response_answer(id, second) matches Some(AnswerView::Failed(_)),
        x.response_asked(first).chunks == x.chunks,
{
}

/// What came of asking for a part of a body is told to whoever asked; when the body is over its
/// connection is given back, and before that the next part is waited for with a limit of time.
pub proof fn law_who_reads_a_body_is_told(
    client: ClientView,
    id: u64,
    pending: Pending,
    effects: Seq<EffectView>,
)
    requires
        client.exchanges.dom().contains(id),
        pending.session != 0,
    ensures
        ({
            let x = client.exchanges[id];
            let step = client.body_step(id, pending);
            let told = client.body_effects(step, effects);
            &&& x.next_answer() matches Some(answer) ==> told.len() > effects.len()
                && told[effects.len() as int] == (EffectView::Reply { pending, answer })
            &&& x.next_answer() is None ==> told == effects.push(
                EffectView::WaitTimeout {
                    id,
                    session: pending.session,
                    body: true,
                    after_ms: client.config.body_idle_timeout_ms,
                },
            )
            &&& step.leftover is None ==> !(told.last() is Wake)
        }),
{
}

/// A connection that became idle is closed when its own idleness lasts too long, and not for an
/// earlier one: once it is used again, or idle anew, the old limit means nothing.
pub proof fn law_only_a_lasting_idleness_closes_a_connection(
    client: ClientView,
    transport: TransportId,
    origin: OriginView,
    generation: u64,
    effects: Seq<EffectView>,
)
    requires
        client.keeps_idle(origin),
    ensures
        ({
            let idle = client.recycled(transport, origin, true);
            &&& idle.idle_since(transport, idle.next_generation)
            &&& generation != idle.next_generation ==> !idle.idle_since(transport, generation)
            &&& !lists(
                idle.idle_over(transport, idle.next_generation).idle,
                transport,
            ) && !lists(idle.idle_over(transport, idle.next_generation).lines, transport)
            &&& idle.idling_over(transport, idle.next_generation, effects).contains(
                EffectView::Shutdown(transport),
            )
            &&& generation != idle.next_generation ==> idle.idle_over(transport, generation)
                == idle && idle.idling_over(transport, generation, effects) == effects
        }),
        !lists(client.idle, transport) ==> client.idle_over(transport, generation) == client
            && client.idling_over(transport, generation, effects) == effects,
{
    let idle = client.recycled(transport, origin, true);
    assert(idle.idle[client.idle.len() as int].0 == transport);
    lemma_without_line(idle.lines, transport);
    lemma_without_line(idle.idle, transport);
    let told = idle.idling_over(transport, idle.next_generation, effects);
    assert(told[effects.len() as int] == EffectView::Shutdown(transport));
}

/// A start that nobody wants any more waits no longer, and what it had begun is given up; other
/// starts wait on.
pub proof fn law_an_unwanted_start_is_given_up(
    client: ClientView,
    token: u64,
    effects: Seq<EffectView>,
    q: QueuedStartView,
)
    ensures
        ({
            let after = client.start_canceled(token);
            &&& q.token != token && client.waiting.contains(q) ==> after.waiting.contains(q)
            &&& after.waiting.contains(q) ==> q.token != token
            &&& client.start_of(token) matches Some(id) ==> !after.exchanges.dom().contains(id)
            &&& client.start_of(token) is None ==> after.exchanges == client.exchanges
            &&& client.start_dropped(token).start_of(token) is None
            &&& client.start_canceling(token, effects).len() > 0 && client.start_of(token) is None
                ==> client.start_canceling(token, effects).last() is Wake
            &&& client.start_of(token) matches Some(id) ==> client.exchanges.dom().contains(id)
                ==> client.start_canceling(token, effects).contains(
                EffectView::Shutdown(client.exchanges[id].transport),
            )
        }),
{
    let wanted = |q: QueuedStartView| q.token != token;
    let after = client.start_dropped(token);
    broadcast use vstd::seq_lib::group_filter_ensures;

    assert(after.waiting == client.waiting.filter(wanted));
    lemma_no_start(client.started, token);
    if q.token != token && client.waiting.contains(q) {
        let i = choose|i: int| 0 <= i < client.waiting.len() && client.waiting[i] == q;
        assert(wanted(client.waiting[i]));
        assert(client.waiting.filter(wanted).contains(client.waiting[i]));
    }
    if after.waiting.contains(q) {
        let i = choose|i: int| 0 <= i < after.waiting.len() && after.waiting[i] == q;
        assert(wanted(after.waiting[i]));
    }
    if let Some(id) = client.start_of(token) {
        if client.exchanges.dom().contains(id) {
            lemma_canceling(after, id, effects);
        }
    }
}

proof fn lemma_no_start(started: Seq<Started>, token: u64)
    ensures
        first_place(without_token(started, token), |s: Started| s.token == token)
            == without_token(started, token).len(),
{
    broadcast use vstd::seq_lib::group_filter_ensures;

    let other = |s: Started| s.token != token;
    let holds = |s: Started| s.token == token;
    let left = without_token(started, token);
    assert(left == started.filter(other));
    assert forall|i: int| 0 <= i < left.len() implies !holds(#[trigger] left[i]) by {
        assert(other(left[i]));
    }
    lemma_first_place_is(left, holds, left.len() as int);
}

/// A head that is written in turns begins with what was written before, and stays within its limit;
/// the buffer for a part is as large as what the limit leaves.
pub proof fn law_a_head_stays_within_its_limit(
    call: Call<SendRequest>,
    head: Seq<u8>,
    limit: usize,
    turns: nat,
)
    requires
        head.len() <= limit,
    ensures
        head_run(call, head, limit, turns) matches Ok((whole, after)) ==> head.is_prefix_of(whole)
            && whole.len() <= limit,
        head.len() < limit ==> head.len() + room_for(head, limit) == limit,
    decreases turns,
{
    if turns > 0 && !head_whole(call) {
        let (part, after) = head_write(call, room_for(head, limit));
        if let Ok(part) = part {
            if let Ok(longer) = head_with(head, part, limit, head_stalled()) {
                law_a_head_stays_within_its_limit(after, longer, limit, (turns - 1) as nat);
                if let Ok((whole, last)) = head_run(after, longer, limit, (turns - 1) as nat) {
                    assert(head =~= whole.take(head.len() as int));
                }
            }
        }
    }
}

/// The stage that the books say an exchange is at is the stage of its call, step for step; when
/// reading breaks off, the call is lost with it.
pub proof fn law_an_exchange_is_at_the_stage_of_its_call(
    view: DriveView,
    call: Option<Proto>,
    id: u64,
    limit: usize,
    room: int,
)
    requires
        view.exchange.proto == stage_of(call),
    ensures
        view.next(
            proto_step(call, view.exchange.input, room),
            id,
            limit,
        ).exchange.proto == stage_of(proto_after(call, view.exchange.input, room, limit)),
{
}

/// Whoever waits no longer is forgotten, and nobody else is.
pub proof fn law_only_who_gave_up_is_forgotten(x: ExchangeView, session: u64, body: bool)
    ensures
        ({
            let after = x.unwaited(session, body);
            &&& body && x.body_waiter is Some && x.body_waiter->0.session == session
                ==> after.body_waiter is None && after.response_waiter == x.response_waiter
            &&& !body && x.response_waiter is Some && x.response_waiter->0.session == session
                ==> after.response_waiter is None && after.body_waiter == x.body_waiter
            &&& body && !(x.body_waiter is Some && x.body_waiter->0.session == session) ==> after
                == x
            &&& !body && !(x.response_waiter is Some && x.response_waiter->0.session == session)
                ==> after == x
            &&& after.chunks == x.chunks
            &&& after.write_waiter == x.write_waiter
        }),
{
}

/// What is announced rightly is accepted: the length of a body that has one, or that it comes in
/// chunks.
pub proof fn law_a_right_announcement_is_accepted(headers: HeaderMap, size: u64)
    ensures
        first_value(headers, CONTENT_LENGTH@) == Some(decimal_bytes(size as nat)) && first_value(
            headers,
            TRANSFER_ENCODING@,
        ) is None ==> framing_fault(headers, BodySpec::Fixed(size)) is None && framing_header(
            headers,
            BodySpec::Fixed(size),
        ) is None,
        first_value(headers, CONTENT_LENGTH@) is None && first_value(headers, TRANSFER_ENCODING@)
            == Some(chunked_word()) ==> framing_fault(headers, BodySpec::Chunked) is None
            && framing_header(headers, BodySpec::Chunked) is None,
{
    lemma_decimal_reads_back(size as nat);
    lemma_decimal_bytes(size as nat);
    let bytes = decimal_bytes(size as nat);
    assert('0' <= decimal(size as nat)[0] <= '9');
    assert(bytes[0] == decimal(size as nat)[0] as u8);
    assert(length_value(bytes) == Some(size));
    assert(chunked_word().map_values(|b: u8| lower_byte(b)) =~= chunked_word());
}

/// Letters of either case say the same of how a body comes; other bytes stay what they are.
pub proof fn law_case_does_not_matter(byte: u8)
    ensures
        65 <= byte && byte <= 90 ==> lower_byte(byte) == byte + 32,
        !(65 <= byte && byte <= 90) ==> lower_byte(byte) == byte,
        lower_byte(lower_byte(byte)) == lower_byte(byte),
{
}

/// Whoever waited too long is told what they waited for.
pub proof fn law_a_timeout_says_what_was_waited_for(
    client: ClientView,
    id: u64,
    session: u64,
    body: bool,
    effects: Seq<EffectView>,
)
    requires
        session != 0,
        client.late_waiter(id, session, body) is Some,
    ensures
        client.wait_effects(id, session, body, effects).contains(
            EffectView::Reply {
                pending: client.late_waiter(id, session, body)->0,
                answer: AnswerView::Failed(
                    HttpErrorView::Timeout(
                        if body {
                            "body idle"@
                        } else {
                            "response head"@
                        },
                    ),
                ),
            },
        ),
{
    let pending = client.late_waiter(id, session, body)->0;
    let told = client.wait_effects(id, session, body, effects);
    assert(told[effects.len() as int] is Reply);
}

} // verus!
