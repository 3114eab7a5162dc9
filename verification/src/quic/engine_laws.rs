//! What holds of how the books and the engine go together: each connection of the engine stands
//! beside its books, and is asked only what it has to be asked.

#[allow(unused_imports)]
use crate::places::{first_place, lemma_first_place, lemma_first_place_is};
#[allow(unused_imports)]
use crate::quic::books::rank;
#[allow(unused_imports)]
use crate::quic::command::AnswerView;
#[allow(unused_imports)]
use crate::quic::config::{QuicConfig, QuicTransportOptions};
#[allow(unused_imports)]
use crate::quic::engine::{Arrival, Asked, Engine, Port};
#[allow(unused_imports)]
use crate::quic::event::QuicConnectionId;
#[allow(unused_imports)]
use crate::quic::lifecycle::{
    engines_failed, heard_place, overdue, overdue_asked, placed, roused, roused_at, ticked,
    timed_out, took_in, up_asked, woken, Seen,
};
#[allow(unused_imports)]
use crate::quic::link::{first_write, has_write, LinkView};
#[allow(unused_imports)]
use crate::quic::outcome::WriteOutcomeView;
#[allow(unused_imports)]
use crate::quic::output::{OutputView, Pending};
#[allow(unused_imports)]
use crate::quic::serve::completes;
#[allow(unused_imports)]
use crate::quic::service::{ports_kept, recorded, with_port, QuicService, Question};
#[allow(unused_imports)]
use crate::quic::setup::connect_refused;
#[allow(unused_imports)]
use crate::quic::state::{Bound, EndpointView, StateView};
use vstd::prelude::*;

verus! {

/// The place at which a number belongs among others: those before it are smaller, and those from it
/// on are not.
proof fn lemma_rank(links: Seq<LinkView>, id: QuicConnectionId)
    ensures
        0 <= rank(links, id) <= links.len(),
        rank(links, id) < links.len() ==> links[rank(links, id)].id.0 >= id.0,
        forall|i: int| 0 <= i < rank(links, id) ==> (#[trigger] links[i]).id.0 < id.0,
    decreases links.len(),
{
    if links.len() > 0 {
        lemma_rank(links.drop_last(), id);
        assert forall|i: int| 0 <= i < rank(links, id) implies (#[trigger] links[i]).id.0
            < id.0 by {
            if i < links.len() - 1 {
                assert(links.drop_last()[i] == links[i]);
            }
        }
    }
}

/// The numbers of connections ascend.
pub open spec fn ascends(links: Seq<LinkView>) -> bool {
    forall|i: int, j: int|
        0 <= i < j < links.len() ==> (#[trigger] links[i]).id.0 < (#[trigger] links[j]).id.0
}

/// Books and connections of the engine with one more entry at the same place, which is new or
/// stands for one with the same number.
pub open spec fn entered(
    before: Seq<LinkView>,
    after: Seq<LinkView>,
    engines: Seq<Engine>,
    left: Seq<Engine>,
    place: int,
) -> bool {
    &&& 0 <= place < after.len()
    &&& left.len() == after.len()
    &&& if place < before.len() && before[place].id == after[place].id {
        before.remove(place) == after.remove(place) && engines.remove(place) == left.remove(place)
    } else {
        before == after.remove(place) && engines == left.remove(place)
    }
}

/// A connection that is entered has the same place among the books and among the connections of the
/// engine; all others stay as they are, side by side.
pub proof fn law_a_new_connection_stands_beside_its_books(
    state: StateView,
    link: LinkView,
    engines: Seq<Engine>,
    engine: Engine,
)
    requires
        engines.len() == state.links.len(),
    ensures
        exists|place: int| #[trigger]
            entered(
                state.links,
                state.with_new_link(link).links,
                engines,
                placed(state.links, link.id, engines, engine),
                place,
            ) && state.with_new_link(link).links[place] == link && placed(
                state.links,
                link.id,
                engines,
                engine,
            )[place] == engine,
{
    lemma_rank(state.links, link.id);
    let place = rank(state.links, link.id);
    let after = state.with_new_link(link).links;
    let left = placed(state.links, link.id, engines, engine);
    if place < state.links.len() && state.links[place].id == link.id {
        assert(state.links.remove(place) =~= after.remove(place));
        assert(engines.remove(place) =~= left.remove(place));
    } else {
        assert(state.links =~= after.remove(place));
        assert(engines =~= left.remove(place));
    }
    assert(entered(state.links, after, engines, left, place));
}

/// The numbers of connections ascend whatever is entered.
pub proof fn law_connections_stand_by_number(state: StateView, link: LinkView)
    requires
        ascends(state.links),
    ensures
        ascends(state.with_new_link(link).links),
{
    lemma_rank(state.links, link.id);
    let place = rank(state.links, link.id);
    let before = state.links;
    let links = state.with_new_link(link).links;
    if place < before.len() && before[place].id == link.id {
        assert forall|i: int, j: int| 0 <= i < j < links.len() implies (#[trigger] links[i]).id.0
            < (#[trigger] links[j]).id.0 by {
            assert(before[i].id.0 < before[j].id.0);
        }
    } else {
        assert forall|i: int, j: int| 0 <= i < j < links.len() implies (#[trigger] links[i]).id.0
            < (#[trigger] links[j]).id.0 by {
            if j < place {
                assert(before[i].id.0 < before[j].id.0);
            } else if j == place {
                assert(before[i].id.0 < link.id.0);
            } else if i == place {
                assert(before[place].id.0 > link.id.0);
                if place < j - 1 {
                    assert(before[place].id.0 < before[j - 1].id.0);
                }
            } else if i < place {
                assert(before[i].id.0 < before[j - 1].id.0);
            } else {
                assert(before[i - 1].id.0 < before[j - 1].id.0);
            }
        }
    }
}

/// When a timer goes off, only connections of its socket are asked, and only those are woken whose
/// time has come; each of these is.
pub proof fn law_only_due_connections_are_woken(
    links: Seq<LinkView>,
    before: Seq<Engine>,
    after: Seq<Engine>,
    socket: u32,
    now: u64,
    i: int,
)
    requires
        woken(links, before, after, socket, now),
        0 <= i < after.len(),
    ensures
        links[i].endpoint_socket != socket ==> after[i].asked() == before[i].asked(),
        links[i].endpoint_socket == socket ==> ({
            let had = before[i].asked().len();
            let asked = after[i].asked();
            &&& asked.len() > had && asked.take(had as int) == before[i].asked()
            &&& asked[had as int] matches Asked::Timeout { at } && (match at {
                Some(at) => if at <= now {
                    asked.len() == had + 2 && asked[(had + 1) as int] == (Asked::Wake { now })
                } else {
                    asked.len() == had + 1
                },
                None => asked.len() == had + 1,
            })
        }),
{
    assert(roused(links[i], before[i].asked(), after[i].asked(), socket, now));
    if links[i].endpoint_socket == socket {
        let at = choose|at: Option<u64>| #[trigger]
            roused_at(before[i].asked(), after[i].asked(), at, now);
        let had = before[i].asked().len();
        assert(after[i].asked().take(had as int) =~= before[i].asked());
    }
}

/// A timer that has been replaced by another does nothing when it goes off.
pub proof fn law_an_old_timer_does_nothing(
    before: QuicService,
    socket: u32,
    generation: u64,
    now: u64,
    after: QuicService,
    output: OutputView,
)
    requires
        ticked(before, socket, generation, now, after, output),
        forall|i: int|
            0 <= i < before.state@.endpoints.len() && (
            #[trigger] before.state@.endpoints[i]).socket == socket
                ==> before.state@.endpoints[i].timer_generation != generation,
    ensures
        after == before,
        output == OutputView::empty(),
{
    let endpoints = before.state@.endpoints;
    lemma_endpoint_place(before.state@, socket);
    let place = before.state@.endpoint_place(socket);
    if place < endpoints.len() {
        assert(endpoints[place].socket == socket);
    }
}

proof fn lemma_endpoint_place(state: StateView, socket: u32)
    ensures
        0 <= state.endpoint_place(socket) <= state.endpoints.len(),
        state.endpoint_place(socket) < state.endpoints.len()
            ==> state.endpoints[state.endpoint_place(socket)].socket == socket,
    decreases state.endpoints.len(),
{
    if state.endpoints.len() > 0 {
        let front = StateView { endpoints: state.endpoints.drop_last(), ..state };
        lemma_endpoint_place(front, socket);
    }
}

/// A timer that went off is gone, and nothing else changes by that.
pub proof fn law_a_timer_goes_off_once(state: StateView, socket: u32)
    requires
        state.endpoint_place(socket) < state.endpoints.len(),
    ensures
        ({
            let after = state.timer_gone(socket);
            let place = state.endpoint_place(socket);
            &&& after.endpoints[place].timer_deadline is None
            &&& after.endpoints[place].connections == state.endpoints[place].connections
            &&& after.endpoints[place].socket == socket
            &&& after.links == state.links
            &&& after.endpoints.len() == state.endpoints.len()
            &&& forall|i: int|
                0 <= i < state.endpoints.len() && i != place ==> #[trigger] after.endpoints[i]
                    == state.endpoints[i]
        }),
{
    lemma_endpoint_place(state, socket);
}

/// A question is noted with the connection it was put to, behind what that was asked before, and
/// with no other.
pub proof fn law_a_question_goes_to_its_connection(
    records: Seq<Seq<Asked>>,
    place: int,
    asked: Asked,
    other: int,
)
    requires
        0 <= place < records.len(),
        0 <= other < records.len(),
        other != place,
    ensures
        ({
            let after = recorded(records, Question::One(place, asked));
            &&& after.len() == records.len()
            &&& after[place] == records[place].push(asked)
            &&& after[other] == records[other]
        }),
        recorded(records, Question::Nothing) == records,
        forall|each: Seq<Asked>| #[trigger]
            recorded(records, Question::Each(each)).len() == records.len() && recorded(
                records,
                Question::Each(each),
            )[place] == records[place].push(each[place]),
{
}

/// The endpoint of a socket replaces another of the same socket, or stands behind the others; the
/// others stay as they are.
pub proof fn law_an_endpoint_stands_beside_its_books(
    state: StateView,
    ports: Seq<Port>,
    endpoint: EndpointView,
    port: Port,
)
    requires
        ports.len() == state.endpoints.len(),
    ensures
        ({
            let endpoints = state.with_endpoint(endpoint).endpoints;
            let after = with_port(state, ports, endpoint.socket, port);
            &&& after.len() == endpoints.len()
            &&& exists|i: int|
                0 <= i < endpoints.len() && #[trigger] endpoints[i] == endpoint && after[i] == port
            &&& forall|i: int|
                #![trigger state.endpoints[i]]
                0 <= i < ports.len() && state.endpoints[i].socket != endpoint.socket
                    ==> endpoints[i] == state.endpoints[i] && after[i] == ports[i]
        }),
        ports_kept(ports, None) == ports,
        forall|place: int|
            0 <= place < ports.len() ==> #[trigger] ports_kept(ports, Some(place)) == ports.take(
                place,
            ) + ports.skip(place + 1),
{
    lemma_endpoint_place(state, endpoint.socket);
    let place = state.endpoint_place(endpoint.socket);
    let endpoints = state.with_endpoint(endpoint).endpoints;
    let after = with_port(state, ports, endpoint.socket, port);
    assert(endpoints[place] == endpoint && after[place] == port);
    assert forall|place: int| 0 <= place < ports.len() implies #[trigger] ports_kept(
        ports,
        Some(place),
    ) == ports.take(place) + ports.skip(place + 1) by {
        assert(ports_kept(ports, Some(place)) =~= ports.take(place) + ports.skip(place + 1));
    }
}

/// When connecting fails, the caller is told why, the socket that was opened for it is closed, and
/// the place that was kept is free again; no connection is entered.
pub proof fn law_a_failed_connect_leaves_nothing(
    state: StateView,
    pending: Pending,
    socket: Option<u32>,
    reason: Seq<char>,
)
    ensures
        ({
            let (after, output) = connect_refused(state, pending, socket, reason);
            &&& after.links == state.links
            &&& after.endpoints == state.endpoints
            &&& state.reserved_connections > 0 ==> after.reserved_connections
                == state.reserved_connections - 1
            &&& state.reserved_handshakes > 0 ==> after.reserved_handshakes
                == state.reserved_handshakes - 1
            &&& output.replies == seq![(pending, AnswerView::Failed(reason))]
            &&& socket matches Some(socket) ==> output.close_sockets == seq![socket]
            &&& socket is None ==> output.close_sockets.len() == 0
        }),
{
}

/// A connection is let in only where somebody listens and there is room for it; otherwise whoever
/// wants it is answered, and no connection is entered.
pub proof fn law_connections_are_let_in_only_where_there_is_room(
    before: QuicService,
    after: QuicService,
    socket: u32,
    from: Seq<char>,
    data: Seq<u8>,
    now: u64,
    arrival: Arrival,
    handshaking: int,
    seen: Seen,
)
    requires
        took_in(before, after, socket, from, data, now, arrival, handshaking, seen),
    ensures
        seen is Accepted ==> before.state@.endpoints[before.state@.endpoint_place(
            socket,
        )].listener is Some && before.state@.links.len() + before.state@.reserved_connections
            < before.config.max_connections && handshaking + before.state@.reserved_handshakes
            < before.config.max_handshakes,
        !(seen is Accepted) ==> after.state@ == before.state@,
{
}

/// As many connections of the engine are left as books of connections when a socket has failed.
pub proof fn law_a_failed_socket_leaves_books_and_engine_even(
    state: StateView,
    bounds: Seq<Bound>,
    engines: Seq<Engine>,
    reason: Seq<char>,
)
    requires
        engines.len() == state.links.len(),
    ensures
        engines_failed(state, bounds, engines, reason).len() == state.failed_all(
            bounds,
            OutputView::empty(),
            reason,
        ).0.links.len(),
    decreases bounds.len(),
{
    if bounds.len() > 0 {
        law_a_failed_socket_leaves_books_and_engine_even(
            state,
            bounds.drop_last(),
            engines,
            reason,
        );
        let s = state.failed_all(bounds.drop_last(), OutputView::empty(), reason).0;
        lemma_link_place(s.links, bounds.last().id);
    }
}

proof fn lemma_link_place(links: Seq<LinkView>, id: QuicConnectionId)
    ensures
        0 <= first_place(links, |link: LinkView| link.id == id) <= links.len(),
{
    lemma_first_place(links, |link: LinkView| link.id == id);
}

/// Limits that are accepted leave room for a handshake, and an owner that was told to wait is told
/// to go on at a lower mark than that at which it was told to wait.
pub proof fn law_accepted_limits_can_be_met(config: QuicConfig, options: QuicTransportOptions)
    ensures
        config.acceptable() <==> 1 <= config.max_handshakes <= config.max_connections && 1
            <= config.write_low_water < config.write_high_water && config.max_chunk_size >= 1
            && config.handshake_timeout_ms >= 1,
        options.windows_ok() <==> options.max_idle_timeout_ms >= 1 && options.stream_receive_window
            >= 1 && options.receive_window >= 1,
        !options.datagrams ==> options.told().receive_buffer is None && options.told().send_buffer
            == 0,
        options.datagrams ==> options.told().receive_buffer == Some(
            options.datagram_receive_buffer_size,
        ) && options.told().send_buffer == options.datagram_send_buffer_size,
        options.told().max_idle_timeout_ms == options.max_idle_timeout_ms,
        options.told().stream_receive_window == options.stream_receive_window,
        options.told().receive_window == options.receive_window,
        options.told().max_concurrent_bidi_streams == options.max_concurrent_bidi_streams,
        options.told().max_concurrent_uni_streams == options.max_concurrent_uni_streams,
{
}

/// What the engine has for a connection goes to the connection that the endpoint knows by that
/// number.
pub proof fn law_a_report_finds_its_connection(
    state: StateView,
    socket: u32,
    handle: usize,
    k: int,
)
    requires
        state.endpoint_place(socket) < state.endpoints.len(),
        0 <= k < state.endpoints[state.endpoint_place(socket)].connections.len(),
        state.endpoints[state.endpoint_place(socket)].connections[k].handle == handle,
        forall|i: int|
            0 <= i < k ==> (#[trigger] state.endpoints[state.endpoint_place(
                socket,
            )].connections[i]).handle != handle,
    ensures
        heard_place(state, socket, handle) == state.link_place(
            state.endpoints[state.endpoint_place(socket)].connections[k].id,
        ),
{
    let connections = state.endpoints[state.endpoint_place(socket)].connections;
    lemma_bound_place(connections, handle, k);
}

proof fn lemma_bound_place(connections: Seq<Bound>, handle: usize, k: int)
    requires
        0 <= k < connections.len(),
        connections[k].handle == handle,
        forall|i: int| 0 <= i < k ==> (#[trigger] connections[i]).handle != handle,
    ensures
        first_place(connections, |b: Bound| b.handle == handle) == k,
{
    lemma_first_place_is(connections, |b: Bound| b.handle == handle, k);
}

/// Whoever waits for a connection that does not come up in time is told so first of all, unless the
/// connection has come up after all; where nobody waits nothing happens.
pub proof fn law_a_connection_that_is_late_is_told(
    before: QuicService,
    id: QuicConnectionId,
    now: u64,
    after: QuicService,
    output: OutputView,
)
    requires
        overdue(before, id, now, after, output),
    ensures
        !before.state@.has_link(id) || before.state@.link(id).connect_pending is None ==> after
            == before && output == OutputView::empty(),
        before.state@.has_link(id) && before.state@.link(id).connect_pending is Some ==> (
        after.state@ == before.state@ && output == OutputView::empty()) || (output.replies.len()
            > 0 && output.replies[0].0 == before.state@.link(id).connect_pending->0
            && output.replies[0].1 is Failed),
{
}

/// Whoever was told that a connection is late does not wait for it any more, and all else about it
/// and about the others is as it was; the connection is closed then, and one that is up is not.
pub proof fn law_a_late_connection_is_told_once(state: StateView, id: QuicConnectionId, now: u64)
    requires
        state.has_link(id),
    ensures
        ({
            let after = timed_out(state, id);
            let place = state.link_place(id);
            &&& after.links.len() == state.links.len()
            &&& after.links[place].connect_pending is None
            &&& after.links[place].writes == state.links[place].writes
            &&& after.links[place].id == state.links[place].id
            &&& after.links[place].owner == state.links[place].owner
            &&& after.endpoints == state.endpoints
            &&& forall|i: int|
                0 <= i < state.links.len() && i != place ==> #[trigger] after.links[i]
                    == state.links[i]
        }),
        overdue_asked(now).len() == 2 && overdue_asked(now)[0] == (Asked::Handshaking {
            handshaking: true,
        }) && overdue_asked(now)[1] is Close,
        up_asked() == seq![Asked::Handshaking { handshaking: false }],
{
    lemma_link_place(state.links, id);
}

/// A write is through when the engine took all that was left of it, or will never take it; one that
/// the engine does not take now is not.
pub proof fn law_a_write_is_through_when_all_is_taken(link: LinkView, stream: u64, count: int)
    requires
        has_write(link.writes, stream),
        0 <= count,
    ensures
        ({
            let place = first_write(link.writes, stream);
            let rest = link.writes[place].remaining();
            &&& completes(link, stream, WriteOutcomeView::Written(count)) <==> count == rest
            &&& !completes(link, stream, WriteOutcomeView::Blocked)
            &&& forall|reason: Seq<char>| #[trigger]
                completes(link, stream, WriteOutcomeView::Failed(reason))
        }),
{
}

} // verus!
