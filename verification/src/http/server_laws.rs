//! What holds of the server as a whole: how bodies are handed out, how responses are sent, and how
//! connections go on.

#[allow(unused_imports)]
use crate::http::connection::{
    serve_after, serve_step, ConnectionView, HttpListenerId, RequestBodyNext, RequestNext,
    ServeStep, ServeView,
};
#[allow(unused_imports)]
use crate::http::error::HttpErrorView;
#[allow(unused_imports)]
use crate::http::reply::{server_stage, ServerProto, ServerStage};
#[allow(unused_imports)]
use crate::http::request::WriteNote;
#[allow(unused_imports)]
use crate::http::respond::{EndNote, LeaveNote, ReplyEnd};
#[allow(unused_imports)]
use crate::http::server::{without_listener, Listening, ServerView};
#[allow(unused_imports)]
use crate::http::traffic::{AcceptNext, DataNextView, FinishNext};
use crate::http::transport::TransportId;
#[allow(unused_imports)]
use crate::places::lemma_first_place_is;
use ureq_proto::http::Request as HttpRequest;
use vstd::prelude::*;

verus! {

/// The bytes of several parts, one after the other.
pub open spec fn bytes_of(parts: Seq<Seq<u8>>) -> Seq<u8>
    decreases parts.len(),
{
    if parts.len() == 0 {
        Seq::empty()
    } else {
        parts[0] + bytes_of(parts.drop_first())
    }
}

/// One more part adds its bytes behind the others.
pub proof fn lemma_bytes_pushed(parts: Seq<Seq<u8>>, part: Seq<u8>)
    ensures
        bytes_of(parts.push(part)) == bytes_of(parts) + part,
    decreases parts.len(),
{
    reveal_with_fuel(bytes_of, 2);
    let more = parts.push(part);
    if parts.len() == 0 {
        assert(more.drop_first() =~= Seq::<Seq<u8>>::empty());
        assert(bytes_of(more) =~= bytes_of(parts) + part);
    } else {
        assert(more.drop_first() =~= parts.drop_first().push(part));
        lemma_bytes_pushed(parts.drop_first(), part);
        assert(bytes_of(more) =~= bytes_of(parts) + part);
    }
}

/// A request's body is handed out in the order in which it came: the part that a reader gets and
/// those that are left are, one behind the other, what was held before. The end is told only when
/// nothing is held and all has come, and an error only when nothing is held.
pub proof fn law_a_body_is_handed_out_in_order(x: ConnectionView, low: usize)
    ensures
        x.chunk_answer() matches Some(Ok(Some(part))) ==> part + bytes_of(x.chunk_asked(low).chunks)
            == bytes_of(x.chunks),
        !(x.chunk_answer() matches Some(Ok(Some(_)))) ==> x.chunks.len() == 0 && x.chunk_asked(
            low,
        ).chunks.len() == 0,
        x.chunks.len() > 0 ==> (x.chunk_answer() matches Some(Ok(Some(_)))),
        x.chunk_answer() matches Some(Ok(None)) ==> x.body_ended && x.error is None,
        x.chunks.len() == 0 && x.error is None && x.body_ended ==> (x.chunk_answer() matches Some(
            Ok(None),
        )),
        x.chunks.len() == 0 && x.error is None && !x.body_ended ==> x.chunk_answer() is None,
        x.chunks.len() == 0 && x.error is Some ==> x.chunk_answer() == Some::<
            Result<Option<Seq<u8>>, HttpErrorView>,
        >(Err(HttpErrorView::Transport(x.error->0))),
        x.chunk_asked(low).input == x.input,
        x.chunk_asked(low).proto == x.proto,
        x.chunk_asked(low).body_ended == x.body_ended,
{
    if x.chunks.len() > 0 {
        assert(x.chunks.skip(1) =~= x.chunks.drop_first());
    }
}

/// Everything that a reader gets when asking until nothing is held is what was held.
pub open spec fn drained(x: ConnectionView, low: usize) -> Seq<u8>
    decreases x.chunks.len(),
{
    match x.chunk_answer() {
        Some(Ok(Some(part))) => if x.chunk_asked(low).chunks.len() < x.chunks.len() {
            part + drained(x.chunk_asked(low), low)
        } else {
            part
        },
        _ => Seq::empty(),
    }
}

/// Whoever reads a body to its end gets all the bytes that were held, in order and once.
pub proof fn law_a_body_is_read_whole(x: ConnectionView, low: usize)
    ensures
        drained(x, low) == bytes_of(x.chunks),
    decreases x.chunks.len(),
{
    law_a_body_is_handed_out_in_order(x, low);
    if x.chunks.len() > 0 {
        law_a_body_is_read_whole(x.chunk_asked(low), low);
    }
    assert(drained(x, low) =~= bytes_of(x.chunks));
}

/// The part of a body that a step brings.
pub open spec fn body_part(step: ServeStep) -> Seq<u8> {
    match step {
        ServeStep::Body { used, data, next } => data,
        _ => Seq::empty(),
    }
}

/// What a step takes off the input.
pub open spec fn taken_off(step: ServeStep) -> int {
    match step {
        ServeStep::Request { used, request, next } => used,
        ServeStep::Body { used, data, next } => used,
        _ => 0,
    }
}

/// A part of a body that came is held behind those that came before, what it took is off the front
/// of the input and nothing else is, and only a head brings a request.
pub proof fn law_what_comes_is_held_in_order(view: ServeView, step: ServeStep, limit: usize)
    requires
        0 <= taken_off(step) <= view.connection.input.len(),
    ensures
        bytes_of(view.next(step, limit).connection.chunks) == bytes_of(view.connection.chunks)
            + body_part(step),
        view.connection.input == view.connection.input.take(taken_off(step)) + view.next(
            step,
            limit,
        ).connection.input,
        !(step is Request) ==> view.next(step, limit).requests == view.requests,
        view.next(step, limit).connection.transport == view.connection.transport,
        view.next(step, limit).connection.paused == view.connection.paused,
{
    let after = view.next(step, limit);
    if let ServeStep::Body { used, data, next } = step {
        lemma_bytes_pushed(view.connection.chunks, data);
    }
    assert(bytes_of(after.connection.chunks) =~= bytes_of(view.connection.chunks) + body_part(
        step,
    ));
    assert(view.connection.input =~= view.connection.input.take(taken_off(step))
        + after.connection.input);
}

/// The parts that several steps bring.
pub open spec fn body_parts(steps: Seq<ServeStep>) -> Seq<u8>
    decreases steps.len(),
{
    if steps.len() == 0 {
        Seq::empty()
    } else {
        body_parts(steps.drop_last()) + body_part(steps.last())
    }
}

/// Whatever the steps in which a connection is read, the body's bytes are held in the order in
/// which the protocol brought them, behind what was held before.
pub proof fn law_reading_keeps_the_order(
    view: ServeView,
    steps: Seq<ServeStep>,
    limit: usize,
    room: int,
)
    requires
        view.admits(steps, limit, room),
    ensures
        bytes_of(view.run(steps, limit).connection.chunks) == bytes_of(view.connection.chunks)
            + body_parts(steps),
    decreases steps.len(),
{
    if steps.len() == 0 {
        assert(bytes_of(view.connection.chunks) =~= bytes_of(view.connection.chunks) + body_parts(
            steps,
        ));
    } else {
        law_reading_keeps_the_order(view, steps.drop_last(), limit, room);
        law_what_comes_is_held_in_order(view.run(steps.drop_last(), limit), steps.last(), limit);
        assert(bytes_of(view.run(steps, limit).connection.chunks) =~= bytes_of(
            view.connection.chunks,
        ) + body_parts(steps));
    }
}

/// A head that has come whole is a request behind those that came before, of this connection and
/// with the right to respond. The body is over at once exactly where none follows, and a client
/// that waits for leave to send its body has it awaited.
pub proof fn law_a_head_brings_one_request(
    view: ServeView,
    used: int,
    request: HttpRequest<()>,
    next: RequestNext,
    limit: usize,
)
    requires
        0 <= used <= view.connection.input.len(),
        !(next is Stuck),
    ensures
        ({
            let after = view.next(ServeStep::Request { used, request, next }, limit);
            &&& after.requests.len() == view.requests.len() + 1
            &&& after.requests.drop_last() == view.requests
            &&& after.requests.last().request == request
            &&& after.requests.last().peer == view.connection.peer
            &&& after.requests.last().tls == view.connection.tls
            &&& after.requests.last().listener == view.connection.listener
            &&& after.requests.last().responder.transport == view.connection.transport
            &&& after.requests.last().responder.active
            &&& after.failed == view.failed
            &&& after.connection.body_ended == (next is Provide)
            &&& next is Provide ==> after.connection.respond_obstacle() is None
            &&& next is Await100 ==> after.connection.proto == Some(ServerStage::Await100)
            &&& next is Body ==> after.connection.respond_obstacle() is Some
        }),
{
    let after = view.next(ServeStep::Request { used, request, next }, limit);
    assert(after.requests.drop_last() =~= view.requests);
}

/// A body that is over can be responded to, and its end is told once everything is handed out; a
/// part that is not the last leaves both open.
pub proof fn law_the_last_part_ends_a_body(
    view: ServeView,
    used: int,
    data: Seq<u8>,
    limit: usize,
)
    requires
        0 <= used <= view.connection.input.len(),
        !view.connection.body_ended,
        view.connection.proto == Some(ServerStage::RecvBody),
    ensures
        view.next(
            ServeStep::Body { used, data, next: RequestBodyNext::Over },
            limit,
        ).connection.body_ended,
        view.next(
            ServeStep::Body { used, data, next: RequestBodyNext::Over },
            limit,
        ).connection.respond_obstacle() is None,
        !view.next(
            ServeStep::Body { used, data, next: RequestBodyNext::More },
            limit,
        ).connection.body_ended,
        view.next(
            ServeStep::Body { used, data, next: RequestBodyNext::More },
            limit,
        ).connection.respond_obstacle() is Some,
        view.next(ServeStep::Body { used, data, next: RequestBodyNext::More }, limit).failed
            == view.failed,
{
}

/// A head that is not whole is waited for up to the limit and refused beyond it; whatever breaks
/// reading off leaves no protocol behind.
pub proof fn law_a_head_has_its_limit(view: ServeView, limit: usize, reason: Seq<char>)
    requires
        view.failed is None,
    ensures
        view.next(ServeStep::RequestPartial, limit).failed is Some <==> view.connection.input.len()
            > limit,
        view.next(ServeStep::RequestPartial, limit).failed is None ==> view.next(
            ServeStep::RequestPartial,
            limit,
        ).connection == view.connection && !view.next(ServeStep::RequestPartial, limit).more,
        view.next(ServeStep::RequestFailed(reason), limit).failed == Some(
            HttpErrorView::Protocol(reason),
        ),
        view.next(ServeStep::BodyFailed(reason), limit).failed == Some(
            HttpErrorView::Protocol(reason),
        ),
        view.next(ServeStep::RequestFailed(reason), limit).connection.proto is None,
        view.next(ServeStep::BodyFailed(reason), limit).connection.proto is None,
{
}

/// A connection is asked to receive nothing only when too much is held, and to receive again only
/// when it was asked that and little is held; after either the same is not asked again.
pub proof fn law_a_full_connection_pauses(x: ConnectionView, low: usize, high: usize)
    requires
        low < high,
    ensures
        x.to_pause(high) ==> x.input.len() + bytes_of(x.chunks).len() >= high && !x.body_ended,
        !x.paused && !x.body_ended && x.input.len() + bytes_of(x.chunks).len() >= high
            ==> x.to_pause(high) && x.relaxed(high).paused,
        x.to_resume(low) ==> x.paused && x.input.len() + bytes_of(x.chunks).len() <= low,
        x.paused && x.input.len() + bytes_of(x.chunks).len() <= low ==> x.to_resume(low),
        !x.relaxed(high).to_pause(high),
        x.relaxed(high).chunks == x.chunks,
        x.relaxed(high).input == x.input,
        x.chunk_taken().to_resume(low) ==> !x.chunk_asked(low).paused,
        !x.chunk_taken().to_resume(low) ==> x.chunk_asked(low).paused == x.paused,
{
    lemma_held(x.chunks);
}

/// What is counted as held is the number of bytes.
proof fn lemma_held(parts: Seq<Seq<u8>>)
    ensures
        crate::http::exchange::total(parts) == bytes_of(parts).len(),
    decreases parts.len(),
{
    if parts.len() > 0 {
        lemma_held(parts.drop_last());
        lemma_bytes_pushed(parts.drop_last(), parts.last());
        assert(parts.drop_last().push(parts.last()) =~= parts);
    }
}

/// A reader of one connection's body touches no other connection; without the connection the body
/// is closed, what is held comes before any timeout, and only a reader that gets nothing for too
/// long loses the connection.
pub proof fn law_a_reader_touches_one_connection(
    server: ServerView,
    transport: TransportId,
    other: TransportId,
    waited_ms: u64,
)
    requires
        other.number() != transport.number(),
    ensures
        server.chunk_asked(transport, waited_ms).has(other) == server.has(other),
        server.has(other) ==> server.chunk_asked(transport, waited_ms).at(other) == server.at(
            other,
        ),
        !server.has(transport) ==> server.chunk_answer(transport, waited_ms) == Some::<
            Result<Option<Seq<u8>>, HttpErrorView>,
        >(Err(HttpErrorView::BodyClosed)),
        server.has(transport) && server.at(transport).chunks.len() > 0 ==> server.chunk_asked(
            transport,
            waited_ms,
        ).has(transport) && (server.chunk_answer(transport, waited_ms) matches Some(
            Ok(Some(part)),
        ) && part + bytes_of(server.chunk_asked(transport, waited_ms).at(transport).chunks)
            == bytes_of(server.at(transport).chunks)),
        server.has(transport) && server.at(transport).chunk_answer() is None && waited_ms
            < server.config.body_idle_timeout_ms ==> server.chunk_answer(transport, waited_ms)
            is None && server.chunk_asked(transport, waited_ms).has(transport),
        server.has(transport) && server.at(transport).chunk_answer() is None && waited_ms
            >= server.config.body_idle_timeout_ms ==> (server.chunk_answer(
            transport,
            waited_ms,
        ) matches Some(Err(HttpErrorView::Timeout(_)))) && !server.chunk_asked(
            transport,
            waited_ms,
        ).has(transport),
{
    if server.has(transport) {
        law_a_body_is_handed_out_in_order(server.at(transport), server.config.input_low_water);
    }
}

/// Bytes that come in on one connection touch no other, and are behind what came in before; those
/// of a WebSocket go to the WebSocket and are not read as requests.
pub proof fn law_bytes_stay_on_their_connection(
    server: ServerView,
    transport: TransportId,
    other: TransportId,
    data: Seq<u8>,
    steps: Seq<ServeStep>,
)
    requires
        other.number() != transport.number(),
    ensures
        server.data_came(transport, data, steps).has(other) == server.has(other),
        server.has(other) ==> server.data_came(transport, data, steps).at(other) == server.at(
            other,
        ),
        server.at(transport).fed(data).input == server.at(transport).input + data,
        server.at(transport).fed(data).chunks == server.at(transport).chunks,
        server.has(transport) && (server.at(transport).proto matches Some(
            ServerStage::WebSocket(id),
        )) ==> server.data_next(transport, data, steps) == (DataNextView::Socket {
            id: server.at(transport).proto->0->WebSocket_0,
            data,
        }) && server.data_came(transport, data, steps) == server,
        !server.has(transport) ==> server.data_came(transport, data, steps) == server,
{
}

/// A connection that breaks while it is read is given up, and the reason is told; one that does
/// not stays, with the requests told that came.
pub proof fn law_a_broken_connection_is_given_up(
    server: ServerView,
    transport: TransportId,
    data: Seq<u8>,
    steps: Seq<ServeStep>,
)
    requires
        server.has(transport),
        !(server.at(transport).proto matches Some(ServerStage::WebSocket(_))),
    ensures
        ({
            let end = server.served(server.at(transport).fed(data), steps);
            match end.failed {
                Some(error) => {
                    &&& !server.data_came(transport, data, steps).has(transport)
                    &&& server.data_next(transport, data, steps) == DataNextView::Failed(error)
                },
                None => {
                    &&& server.data_came(transport, data, steps).has(transport)
                    &&& server.data_came(transport, data, steps).at(transport).chunks
                        == end.connection.chunks
                    &&& server.data_came(transport, data, steps).at(transport).input
                        == end.connection.input
                    &&& server.data_next(transport, data, steps) matches DataNextView::Requests {
                        requests,
                        pause,
                    } && requests == end.requests
                },
            }
        }),
{
}

/// What a client sent before its connection went is still handed out, and then whoever reads is
/// told that it went; a connection that only awaited a request is forgotten.
pub proof fn law_what_came_before_the_end_is_read(
    server: ServerView,
    transport: TransportId,
    reason: Option<Seq<char>>,
    low: usize,
)
    requires
        server.has(transport),
        !server.listens(transport),
    ensures
        server.at(transport).proto == Some(ServerStage::RecvRequest) ==> !server.closed(
            transport,
            reason,
        ).has(transport),
        server.at(transport).proto == Some(ServerStage::RecvBody) ==> {
            let after = server.closed(transport, reason);
            &&& after.has(transport)
            &&& drained(after.at(transport), low) == bytes_of(server.at(transport).chunks)
            &&& after.at(transport).error is Some
            &&& reason is Some ==> after.at(transport).error == reason
        },
        server.closed(transport, reason).listeners == server.listeners,
{
    if server.at(transport).proto == Some(ServerStage::RecvBody) {
        law_a_body_is_read_whole(server.closed(transport, reason).at(transport), low);
    }
}

/// The end of a listener's transport takes the listener and no connection.
pub proof fn law_a_listener_goes_alone(
    server: ServerView,
    transport: TransportId,
    reason: Option<Seq<char>>,
)
    requires
        server.listens(transport),
    ensures
        server.closed(transport, reason).connections == server.connections,
        forall|l: Listening| #[trigger]
            server.closed(transport, reason).listeners.contains(l) <==> server.listeners.contains(
                l,
            ) && l.transport != transport,
{
    let holds = |l: Listening| l.transport != transport;
    assert forall|l: Listening| #[trigger]
        server.closed(transport, reason).listeners.contains(l) <==> server.listeners.contains(l)
            && l.transport != transport by {
        let kept = server.listeners.filter(holds);
        assert(kept == server.closed(transport, reason).listeners);
        lemma_filtered(server.listeners, holds, l);
    }
}

proof fn lemma_filtered(listeners: Seq<Listening>, holds: spec_fn(Listening) -> bool, l: Listening)
    ensures
        listeners.filter(holds).contains(l) <==> listeners.contains(l) && holds(l),
    decreases listeners.len(),
{
    reveal(Seq::filter);
    if listeners.len() > 0 {
        let front = listeners.drop_last();
        lemma_filtered(front, holds, l);
        assert(listeners =~= front.push(listeners.last()));
        if front.contains(l) {
            let k = choose|k: int| 0 <= k < front.len() && front[k] == l;
            assert(listeners[k] == l);
        }
        if listeners.contains(l) && l != listeners.last() {
            let k = choose|k: int| 0 <= k < listeners.len() && listeners[k] == l;
            assert(front[k] == l);
        }
        let kept = front.filter(holds);
        if holds(listeners.last()) {
            let more = kept.push(listeners.last());
            assert(more[kept.len() as int] == listeners.last());
            if kept.contains(l) {
                let k = choose|k: int| 0 <= k < kept.len() && kept[k] == l;
                assert(more[k] == l);
            }
            if more.contains(l) && l != listeners.last() {
                let k = choose|k: int| 0 <= k < more.len() && more[k] == l;
                assert(kept[k] == l);
            }
        }
        if l == listeners.last() {
            assert(listeners[listeners.len() - 1] == l);
        }
    }
}

/// A new listener is the one found on its transport, under a number of its own, and the
/// connections are not touched.
pub proof fn law_a_new_listener_is_found(server: ServerView, transport: TransportId)
    ensures
        server.listening(transport).listens(transport),
        server.listening(transport).listener(transport) == Some(
            HttpListenerId(server.listening(transport).next_listener),
        ),
        server.next_listener < u64::MAX ==> server.listening(transport).next_listener
            == server.next_listener + 1,
        server.listening(transport).connections == server.connections,
{
    let after = server.listening(transport);
    let place = without_listener(server.listeners, transport).len() as int;
    let holds = |l: Listening| l.transport == transport;
    let others = |l: Listening| l.transport != transport;
    assert forall|k: int| 0 <= k < place implies !holds(#[trigger] after.listeners[k]) by {
        let kept = server.listeners.filter(others);
        assert(kept[k] == after.listeners[k]);
        assert(kept.contains(kept[k]));
        lemma_filtered(server.listeners, others, kept[k]);
    }
    lemma_first_place_is(after.listeners, holds, place);
}

/// A connection that the server's listener accepts awaits its first request, with nothing held, and
/// touches no other; any other is left alone.
pub proof fn law_an_accepted_connection_awaits_a_request(
    server: ServerView,
    transport: TransportId,
    listen: TransportId,
    peer: Seq<char>,
    tls: bool,
    other: TransportId,
)
    requires
        other.number() != transport.number(),
    ensures
        ({
            let after = server.accepted(transport, listen, peer, tls, None, true);
            &&& after.has(other) == server.has(other)
            &&& server.has(other) ==> after.at(other) == server.at(other)
            &&& if server.listens(listen) {
                &&& after.has(transport)
                &&& after.at(transport).transport == transport
                &&& Some(after.at(transport).listener) == server.listener(listen)
                &&& after.at(transport).peer == peer
                &&& after.at(transport).tls == tls
                &&& after.at(transport).buffered() == 0
                &&& after.at(transport).chunk_answer() is None
                &&& server.accept_result(listen, None, true) matches Ok(
                    AcceptNext::Await { generation, after_ms },
                ) && after.awaits(transport, generation) && after_ms
                    == server.config.header_timeout_ms
            } else {
                after == server && (server.accept_result(listen, None, true) matches Ok(
                    AcceptNext::Nothing,
                ))
            }
        }),
{
    if server.listens(listen) {
        let after = server.accepted(transport, listen, peer, tls, None, true);
        assert(after.at(transport).chunks =~= Seq::empty());
    }
}

/// A connection that is kept alive awaits the next request with what came in behind the last one;
/// one that is to be closed is gone. No other connection is touched.
pub proof fn law_a_connection_is_kept_or_closed(
    server: ServerView,
    transport: TransportId,
    close: bool,
    other: TransportId,
)
    requires
        server.has(transport),
        other.number() != transport.number(),
    ensures
        ({
            let after = server.finished(transport, close, true);
            let next = server.finish_next(transport, close, true);
            &&& after.has(other) == server.has(other)
            &&& server.has(other) ==> after.at(other) == server.at(other)
            &&& close ==> !after.has(transport) && next == FinishNext::Shutdown
            &&& !close ==> {
                &&& after.has(transport)
                &&& after.at(transport).input == server.at(transport).input
                &&& after.at(transport).chunks.len() == 0
                &&& !after.at(transport).body_ended
                &&& after.at(transport).error is None
                &&& after.at(transport).response_expected is None
                &&& after.at(transport).response_written == 0
                &&& after.at(transport).peer == server.at(transport).peer
                &&& next matches FinishNext::Await { generation, after_ms, buffered }
                    && after.awaits(transport, generation) && after_ms
                    == server.config.header_timeout_ms && buffered == (server.at(
                    transport,
                ).input.len() > 0)
            }
        }),
{
}

/// Only the timeout of the request that is still awaited closes a connection.
pub proof fn law_only_an_awaited_request_times_out(
    server: ServerView,
    transport: TransportId,
    generation: u64,
)
    ensures
        server.awaits(transport, generation) ==> server.has(transport) && server.at(
            transport,
        ).proto == Some(ServerStage::RecvRequest) && server.at(transport).header_generation
            == generation,
        server.has(transport) && server.at(transport).proto == Some(ServerStage::RecvRequest)
            ==> server.awaits(transport, server.at(transport).header_generation),
        server.has(transport) && server.at(transport).proto == Some(ServerStage::RecvBody)
            ==> !server.awaits(transport, generation),
        server.body_pending(transport) ==> server.has(transport) && !server.at(
            transport,
        ).body_ended,
        server.has(transport) && server.at(transport).proto == Some(ServerStage::RecvBody)
            && !server.at(transport).body_ended ==> server.body_pending(transport),
{
}

/// A response whose body has an announced length can be ended only when so many bytes were written;
/// otherwise both lengths are told and the response can go on. Each written chunk counts for its
/// size.
pub proof fn law_a_response_has_its_announced_length(
    x: ConnectionView,
    head: Seq<u8>,
    expected: Option<u64>,
    sizes: Seq<nat>,
)
    requires
        x.respond_obstacle() is None,
        summed(sizes) <= u64::MAX,
    ensures
        ({
            let begun = x.after_respond(Ok((head, ReplyEnd::Body)), expected);
            let sent = wrote_all(begun, sizes);
            &&& sent.proto == Some(ServerStage::SendBody)
            &&& sent.response_written == summed(sizes)
            &&& expected is None ==> sent.end_obstacle() is None
            &&& expected is Some && expected->0 == summed(sizes) ==> sent.end_obstacle() is None
            &&& expected is Some && expected->0 != summed(sizes) ==> sent.end_obstacle() == Some(
                HttpErrorView::BodyLengthMismatch {
                    expected: expected->0,
                    actual: summed(sizes) as u64,
                },
            ) && sent.sending_only() == sent
        }),
{
    let begun = x.after_respond(Ok((head, ReplyEnd::Body)), expected);
    lemma_wrote_all(begun, sizes);
}

/// The sum of several sizes.
pub open spec fn summed(sizes: Seq<nat>) -> nat
    decreases sizes.len(),
{
    if sizes.len() == 0 {
        0
    } else {
        summed(sizes.drop_last()) + sizes.last()
    }
}

/// A connection after chunks of these sizes were written.
pub open spec fn wrote_all(x: ConnectionView, sizes: Seq<nat>) -> ConnectionView
    decreases sizes.len(),
{
    if sizes.len() == 0 {
        x
    } else {
        wrote_all(x, sizes.drop_last()).after_chunk(
            sizes.last() as int,
            WriteNote::Wrote { used: sizes.last() as int, data: Seq::empty() },
        )
    }
}

proof fn lemma_wrote_all(x: ConnectionView, sizes: Seq<nat>)
    requires
        x.response_written == 0,
        summed(sizes) <= u64::MAX,
    ensures
        wrote_all(x, sizes).response_written == summed(sizes),
        wrote_all(x, sizes).proto == x.proto,
        wrote_all(x, sizes).response_expected == x.response_expected,
    decreases sizes.len(),
{
    if sizes.len() > 0 {
        lemma_wrote_all(x, sizes.drop_last());
    }
}

/// The bytes that the protocol makes of a chunk are sent as they are, and only where it took the
/// whole chunk; the bytes that end a body likewise, and the connection is closed where it says so.
pub proof fn law_encoded_bytes_are_sent_as_they_are(
    x: ConnectionView,
    size: int,
    used: int,
    data: Seq<u8>,
    close: bool,
    reason: Seq<char>,
)
    ensures
        used == size ==> x.chunk_result(size, WriteNote::Wrote { used, data }) == Ok::<
            Seq<u8>,
            HttpErrorView,
        >(data),
        used != size ==> x.chunk_result(size, WriteNote::Wrote { used, data }) is Err && x.after_chunk(
            size,
            WriteNote::Wrote { used, data },
        ) == x,
        x.chunk_result(size, WriteNote::Failed(reason)) == Err::<Seq<u8>, HttpErrorView>(
            HttpErrorView::Protocol(reason),
        ),
        x.end_result(EndNote::Over { data, close }) == Ok::<(Seq<u8>, bool), HttpErrorView>(
            (data, close),
        ),
        x.end_result(EndNote::More) is Err && x.after_end(EndNote::More) == x,
        x.respond_result(Ok((data, ReplyEnd::Over(close)))) == Ok::<
            (Seq<u8>, bool, bool),
            HttpErrorView,
        >((data, false, close)),
        x.respond_result(Ok((data, ReplyEnd::Body))) == Ok::<(Seq<u8>, bool, bool), HttpErrorView>(
            (data, true, false),
        ),
        x.after_end(EndNote::Over { data, close }).end_obstacle() == Some(
            HttpErrorView::BodyClosed,
        ),
        x.after_end(EndNote::Over { data, close }).respond_obstacle() is Some,
{
}

/// A request is responded to once, and not before its body has come.
pub proof fn law_a_request_is_responded_to_once(
    x: ConnectionView,
    head: Seq<u8>,
    end: ReplyEnd,
    expected: Option<u64>,
)
    requires
        !(end is Unfinished),
    ensures
        x.after_respond(Ok((head, end)), expected).respond_obstacle() is Some,
        x.proto == Some(ServerStage::RecvBody) ==> x.respond_obstacle() is Some,
        x.proto == Some(ServerStage::RecvRequest) ==> x.respond_obstacle() is Some,
        x.proto == Some(ServerStage::Provide) ==> x.respond_obstacle() is None,
        x.proto == Some(ServerStage::Await100) ==> x.respond_obstacle() is None,
        x.after_respond(Ok((head, end)), expected).input == x.input,
{
}

/// A chunk of no bytes sends nothing, one that is too large is refused with both sizes, and one is
/// sent only while a body is; a client that was given leave sends its body.
pub proof fn law_chunks_are_sent_within_the_limit(
    server: ServerView,
    transport: TransportId,
    size: int,
    data: Seq<u8>,
)
    requires
        size >= 0,
        server.config.max_chunk_size > 0,
    ensures
        size == 0 ==> server.write_answer(transport, size) == Some::<Result<(), HttpErrorView>>(
            Ok(()),
        ),
        size > server.config.max_chunk_size ==> server.write_answer(transport, size) == Some::<
            Result<(), HttpErrorView>,
        >(
            Err(
                HttpErrorView::BackpressureLimit {
                    actual: size,
                    limit: server.config.max_chunk_size as int,
                },
            ),
        ),
        0 < size <= server.config.max_chunk_size ==> (server.write_answer(transport, size) is None
            <==> server.has(transport) && server.at(transport).proto == Some(
            ServerStage::SendBody,
        )),
        server.at(transport).after_leave(LeaveNote::Leave(data)).proto == Some(
            ServerStage::RecvBody,
        ),
{
}

/// A connection that becomes a WebSocket loses none of the bytes that came in behind its request:
/// they are handed over with the start, and nothing is left of them on the connection. The response
/// that switches it is sent as the protocol wrote it, and has no body.
pub proof fn law_an_upgrade_loses_no_bytes(
    server: ServerView,
    transport: TransportId,
    data: Seq<u8>,
    close: bool,
)
    requires
        server.has(transport),
        server.at(transport).proto == Some(ServerStage::Provide),
    ensures
        ({
            let note = Ok((data, ReplyEnd::Over(close)));
            let after = server.upgrading(transport, note);
            &&& server.upgrade_result(transport, note) matches Ok((id, sent, tail)) && sent == data
                && tail == server.at(transport).input && id == after.next_websocket && (
            server.next_websocket < u64::MAX ==> id == server.next_websocket + 1)
            &&& after.at(transport).input.len() == 0
            &&& server.upgrade_result(transport, Ok((data, ReplyEnd::Body))) is Err
        }),
        forall|error: HttpErrorView| #[trigger]
            server.upgrade_result(transport, Err(error)) == Err::<
                (u64, Seq<u8>, Seq<u8>),
                HttpErrorView,
            >(error),
        forall|error: HttpErrorView| #[trigger]
            server.upgrading(transport, Err(error)).at(transport).proto is None,
{
}

/// Only a connection whose request has come whole and is not answered yet becomes a WebSocket.
pub proof fn law_only_an_open_request_is_upgraded(
    server: ServerView,
    transport: TransportId,
    note: Result<(Seq<u8>, ReplyEnd), HttpErrorView>,
)
    ensures
        server.upgrade_result(transport, note) is Ok ==> server.has(transport) && server.at(
            transport,
        ).proto == Some(ServerStage::Provide),
        server.upgrade_result(transport, note) is Err && !(server.has(transport) && server.at(
            transport,
        ).proto == Some(ServerStage::Provide)) ==> server.upgrading(transport, note).connections
            == server.connections,
{
}

/// A connection that serves a WebSocket is that of this WebSocket and of no other, holds no part of
/// a request any more, and no other connection is touched.
pub proof fn law_a_websocket_has_its_connection(
    server: ServerView,
    transport: TransportId,
    id: u64,
    other: TransportId,
)
    requires
        server.has(transport),
        other.number() != transport.number(),
    ensures
        ({
            let after = server.serving(transport, id);
            &&& after.socket_of(transport) == Some(id)
            &&& after.at(transport).chunks.len() == 0
            &&& after.at(transport).body_ended
            &&& after.has(other) == server.has(other)
            &&& after.socket_of(other) == server.socket_of(other)
            &&& after.owns(transport)
        }),
{
}

/// A transport is the server's exactly if it accepts connections on it or serves it.
pub proof fn law_a_server_knows_its_transports(server: ServerView, transport: TransportId)
    ensures
        server.owns(transport) <==> server.has(transport) || server.listens(transport),
        server.socket_of(transport) is Some ==> server.owns(transport),
{
}

/// The stage that the books say a connection is at is the stage of its reply, step for step; when
/// reading breaks off, the reply is lost with it.
pub proof fn law_a_connection_is_at_the_stage_of_its_reply(
    view: ServeView,
    reply: Option<ServerProto>,
    limit: usize,
    room: int,
)
    requires
        view.connection.proto == server_stage(reply),
    ensures
        view.next(
            serve_step(reply, view.connection.input, room),
            limit,
        ).connection.proto == server_stage(
            serve_after(reply, view.connection.input, room, limit),
        ),
{
}

/// Bytes on a connection that serves a WebSocket go to that WebSocket as they came, and bytes on a
/// connection that is not there lead to nothing.
pub proof fn law_bytes_of_a_websocket_go_to_it(
    server: ServerView,
    transport: TransportId,
    data: Seq<u8>,
    steps: Seq<ServeStep>,
)
    ensures
        server.socket_of(transport) matches Some(id) ==> server.data_next(transport, data, steps)
            == (DataNextView::Socket { id, data }) && server.data_came(transport, data, steps)
            == server,
        !server.has(transport) ==> server.data_next(transport, data, steps)
            == (DataNextView::Requests { requests: Seq::empty(), pause: false })
            && server.data_came(transport, data, steps) == server,
{
}

} // verus!
