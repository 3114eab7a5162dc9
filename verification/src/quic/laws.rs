//! What holds of the QUIC service as a whole.

#[allow(unused_imports)]
use crate::places::lemma_first_place;
use crate::quic::command::Command;
use crate::quic::config::QuicConfig;
use crate::quic::event::QuicConnectionId;
use crate::quic::link::QueuedFinish;
use crate::quic::output::Pending;
use crate::quic::state::Bound;
#[allow(unused_imports)]
use crate::quic::{
    command::AnswerView,
    event::EventView,
    link::{has_finish, refuse_finishes, refuse_writes, LinkView, WriteView},
    output::OutputView,
    perform::{call_obstacle, write_obstacle},
    state::{EndpointView, OutcomeView, StateView},
};
use vstd::prelude::*;

verus! {

/// A place that was kept for a connection and given back leaves no trace.
pub proof fn law_a_kept_place_is_given_back(state: StateView, config: QuicConfig, handshaking: int)
    requires
        0 <= handshaking,
        state.has_capacity(config, handshaking),
    ensures
        state.kept().released() == state,
{
}

/// Places are kept only as far as the limits allow.
pub proof fn law_places_stay_within_the_limits(
    state: StateView,
    config: QuicConfig,
    handshaking: int,
)
    requires
        0 <= handshaking,
        state.has_capacity(config, handshaking),
    ensures
        state.kept().links.len() + state.kept().reserved_connections <= config.max_connections,
        handshaking + state.kept().reserved_handshakes <= config.max_handshakes,
{
}

/// Why a request on a connection is refused, if it is.
pub open spec fn refused(state: StateView, config: QuicConfig, pending: Pending, command: Command) -> bool {
    match command {
        Command::OpenBi(id) => state.obstacle(id, pending.source) is Some,
        Command::OpenUni(id) => state.obstacle(id, pending.source) is Some,
        Command::Send { id, stream, data, .. } => write_obstacle(
            state,
            config,
            pending.source,
            id,
            stream,
            data@.len(),
        ) is Some,
        Command::Finish { id, stream } => call_obstacle(state, pending.source, id, stream) is Some
            || has_finish(state.link(id).finishes, stream.0),
        Command::Reset { id, stream, .. } => call_obstacle(
            state,
            pending.source,
            id,
            stream,
        ) is Some,
        Command::Stop { id, stream, .. } => call_obstacle(
            state,
            pending.source,
            id,
            stream,
        ) is Some,
        Command::SendDatagram { id, .. } => state.obstacle(id, pending.source) is Some,
        Command::Close { id, .. } => state.obstacle(id, pending.source) is Some,
        Command::Shutdown(id) => state.obstacle(id, pending.source) is Some,
        _ => false,
    }
}

/// A request on a connection that is refused changes nothing, is answered with a failure where
/// somebody waits for an answer, and is not put to the protocol engine.
pub proof fn law_a_refused_request_changes_nothing(
    state: StateView,
    config: QuicConfig,
    pending: Pending,
    command: Command,
    outcome: OutcomeView,
)
    requires
        refused(state, config, pending, command),
    ensures
        state.consult(config, pending, command) is Nothing,
        state.settle(config, pending, command, outcome, OutputView::empty()).state == state,
        ({
            let replies = state.settle(
                config,
                pending,
                command,
                outcome,
                OutputView::empty(),
            ).output.replies;
            if command is Shutdown || (command is Send && !command->Send_wait) {
                replies.len() == 0
            } else {
                replies.len() == 1 && replies[0].0 == pending && replies[0].1 is Failed
            }
        }),
{
}

/// What is told to a connection that is not started, one after the other.
pub open spec fn told_all(link: LinkView, output: OutputView, events: Seq<EventView>) -> (
    LinkView,
    OutputView,
)
    decreases events.len(),
{
    if events.len() == 0 {
        (link, output)
    } else {
        let (before, out) = told_all(link, output, events.drop_last());
        before.tell(out, events.last())
    }
}

/// What happens on a connection before it is started waits, and whoever starts it gets all of it,
/// in order and once.
pub proof fn law_events_wait_for_the_start(
    state: StateView,
    pending: Pending,
    id: QuicConnectionId,
    link: LinkView,
    output: OutputView,
    events: Seq<EventView>,
)
    requires
        !link.started,
        state.has_link(id),
        state.link(id) == told_all(link, output, events).0,
    ensures
        told_all(link, output, events).1 == output,
        state.settle_start(pending, id, OutputView::empty()).output.events == (link.queued_events
            + events).map_values(|event: EventView| (pending.source, event)),
        state.settle_start(pending, id, OutputView::empty()).state.links[state.link_place(
            id,
        )].queued_events.len() == 0,
{
    lemma_told_all(link, output, events);
    lemma_first_place(state.links, |link: LinkView| link.id == id);
    let after = state.settle_start(pending, id, OutputView::empty());
    assert(after.output.events =~= (link.queued_events + events).map_values(
        |event: EventView| (pending.source, event),
    ));
}

/// What is told to a connection that is not started is kept in order.
proof fn lemma_told_all(link: LinkView, output: OutputView, events: Seq<EventView>)
    requires
        !link.started,
    ensures
        told_all(link, output, events).1 == output,
        told_all(link, output, events).0 == (LinkView {
            queued_events: link.queued_events + events,
            ..link
        }),
    decreases events.len(),
{
    if events.len() == 0 {
        assert(link.queued_events + events =~= link.queued_events);
    } else {
        lemma_told_all(link, output, events.drop_last());
        assert((link.queued_events + events.drop_last()).push(events.last())
            =~= link.queued_events + events);
    }
}

/// The answers of those who wait for one of these writes.
pub open spec fn write_refusals(writes: Seq<WriteView>, reason: Seq<char>) -> Seq<
    (Pending, AnswerView),
>
    decreases writes.len(),
{
    if writes.len() == 0 {
        Seq::empty()
    } else {
        match writes.last().pending {
            Some(pending) => write_refusals(writes.drop_last(), reason).push(
                (pending, AnswerView::Failed(reason)),
            ),
            None => write_refusals(writes.drop_last(), reason),
        }
    }
}

/// The answers of those who wait for one of these finishes.
pub open spec fn finish_refusals(finishes: Seq<QueuedFinish>, reason: Seq<char>) -> Seq<
    (Pending, AnswerView),
> {
    finishes.map_values(|f: QueuedFinish| (f.pending, AnswerView::Failed(reason)))
}

/// When a connection is lost, everybody who waits for a write or for a finish is told so, each
/// once and in the order in which they asked.
pub proof fn law_everybody_who_waits_is_answered(
    link: LinkView,
    output: OutputView,
    reason: Seq<char>,
)
    ensures
        link.fail_pending(output, reason).1.replies == output.replies + write_refusals(
            link.writes,
            reason,
        ) + finish_refusals(link.finishes, reason),
        link.fail_pending(output, reason).0.writes.len() == 0,
        link.fail_pending(output, reason).0.finishes.len() == 0,
{
    lemma_writes_refused(output, link.writes, reason);
    lemma_finishes_refused(
        refuse_writes(output, link.writes, reason),
        link.finishes,
        reason,
    );
    let after = link.fail_pending(output, reason).1.replies;
    assert(after =~= output.replies + write_refusals(link.writes, reason) + finish_refusals(
        link.finishes,
        reason,
    ));
}

/// Those who wait for writes are answered in order.
proof fn lemma_writes_refused(output: OutputView, writes: Seq<WriteView>, reason: Seq<char>)
    ensures
        refuse_writes(output, writes, reason).replies == output.replies + write_refusals(
            writes,
            reason,
        ),
    decreases writes.len(),
{
    if writes.len() > 0 {
        lemma_writes_refused(output, writes.drop_last(), reason);
    }
    assert(refuse_writes(output, writes, reason).replies =~= output.replies + write_refusals(
        writes,
        reason,
    ));
}

/// Those who wait for finishes are answered in order.
proof fn lemma_finishes_refused(
    output: OutputView,
    finishes: Seq<QueuedFinish>,
    reason: Seq<char>,
)
    ensures
        refuse_finishes(output, finishes, reason).replies == output.replies + finish_refusals(
            finishes,
            reason,
        ),
    decreases finishes.len(),
{
    if finishes.len() > 0 {
        lemma_finishes_refused(output, finishes.drop_last(), reason);
    }
    assert(refuse_finishes(output, finishes, reason).replies =~= output.replies
        + finish_refusals(finishes, reason));
}

/// The end of a connection that its owner knows of is told once, started or not. One that never
/// came up is not told of at all: whoever asked for it gets a failure instead.
pub proof fn law_the_end_is_told_to_those_who_know(
    link: LinkView,
    output: OutputView,
    reason: Seq<char>,
    application: Option<(u64, Seq<u8>)>,
)
    ensures
        ({
            let after = link.lost(output, reason, application).1;
            if link.announced {
                &&& after.events.len() == output.events.len() + 1
                &&& after.events.drop_last() == output.events
                &&& after.events.last().0 == link.owner
                &&& after.events.last().1 is Close || after.events.last().1 is Error
            } else {
                after.events == output.events
            }
        }),
        link.connect_pending is Some ==> link.lost(output, reason, application).1.replies.len()
            > output.replies.len() && link.lost(output, reason, application).1.replies[
            output.replies.len() as int] == (
            link.connect_pending->0,
            AnswerView::Failed(reason),
        ),
{
    let closed = "QUIC 连接已关闭"@;
    let answered = output.reply_to(link.connect_pending, AnswerView::Failed(reason));
    let event = match application {
        Some((code, text)) => EventView::Close {
            id: link.id,
            error_code: Some(code),
            reason: text,
        },
        None => EventView::Error { id: link.id, reason },
    };
    let told = if link.announced {
        answered.event(link.owner, event)
    } else {
        answered
    };
    let rest = LinkView { connect_pending: None, ..link };
    law_everybody_who_waits_is_answered(rest, told, closed);
    lemma_refusals_are_no_events(told, link.writes, link.finishes, closed);
    let after = link.lost(output, reason, application).1;
    assert(after.events == told.events);
    if link.announced {
        assert(after.events.drop_last() =~= output.events);
    }
}

/// Who is refused is answered, and nobody is told of it otherwise.
proof fn lemma_refusals_are_no_events(
    output: OutputView,
    writes: Seq<WriteView>,
    finishes: Seq<QueuedFinish>,
    reason: Seq<char>,
)
    ensures
        refuse_finishes(refuse_writes(output, writes, reason), finishes, reason).events
            == output.events,
    decreases writes.len() + finishes.len(),
{
    if finishes.len() > 0 {
        lemma_refusals_are_no_events(output, writes, finishes.drop_last(), reason);
    } else if writes.len() > 0 {
        lemma_refusals_are_no_events(output, writes.drop_last(), finishes, reason);
    }
}

/// Without one connection of many, that one is gone and the others are where they were.
proof fn lemma_link_removed(state: StateView, id: QuicConnectionId)
    requires
        state.wf(),
        state.has_link(id),
    ensures
        ({
            let after = StateView { links: state.links.remove(state.link_place(id)), ..state };
            &&& after.wf()
            &&& !after.has_link(id)
            &&& forall|other: QuicConnectionId|
                !state.has_link(other) ==> !(#[trigger] after.has_link(other))
        }),
{
    let holds = |link: LinkView| link.id == id;
    lemma_first_place(state.links, holds);
    let place = state.link_place(id);
    let after = StateView { links: state.links.remove(place), ..state };
    assert forall|i: int, j: int| 0 <= i < j < after.links.len() implies (
    #[trigger] after.links[i]).id.0 < (#[trigger] after.links[j]).id.0 by {
        let a = if i < place {
            i
        } else {
            i + 1
        };
        let b = if j < place {
            j
        } else {
            j + 1
        };
        assert(state.links[a].id.0 < state.links[b].id.0);
    }
    assert forall|i: int| 0 <= i < after.links.len() implies (#[trigger] after.links[i]).wf() by {
        let a = if i < place {
            i
        } else {
            i + 1
        };
        assert(state.links[a].wf());
    }
    assert forall|other: QuicConnectionId|
        (other == id || !state.has_link(other)) implies !(#[trigger] after.has_link(other)) by {
        let is_other = |link: LinkView| link.id == other;
        lemma_first_place(after.links, is_other);
        lemma_first_place(state.links, is_other);
        let found = after.link_place(other);
        if found < after.links.len() {
            let at = if found < place {
                found
            } else {
                found + 1
            };
            assert(is_other(after.links[found]));
            assert(state.links[at] == after.links[found]);
            assert(is_other(state.links[at]));
            if other == id {
                assert(state.links[place].id == id);
                if at < place {
                    assert(state.links[at].id.0 < state.links[place].id.0);
                } else {
                    assert(state.links[place].id.0 < state.links[at].id.0);
                }
            }
        }
    }
}

/// Connections that go with their socket are gone.
proof fn lemma_failed_all(
    state: StateView,
    bounds: Seq<Bound>,
    output: OutputView,
    reason: Seq<char>,
)
    requires
        state.wf(),
    ensures
        state.failed_all(bounds, output, reason).0.wf(),
        state.failed_all(bounds, output, reason).0.endpoints == state.endpoints,
        forall|i: int|
            #![trigger bounds[i]]
            0 <= i < bounds.len() ==> !state.failed_all(bounds, output, reason).0.has_link(
                bounds[i].id,
            ),
        forall|other: QuicConnectionId|
            !state.has_link(other) ==> !(#[trigger] state.failed_all(
                bounds,
                output,
                reason,
            ).0.has_link(other)),
    decreases bounds.len(),
{
    if bounds.len() > 0 {
        let front = bounds.drop_last();
        lemma_failed_all(state, front, output, reason);
        let s = state.failed_all(front, output, reason).0;
        let id = bounds.last().id;
        if s.has_link(id) {
            lemma_link_removed(s, id);
        }
        let after = state.failed_all(bounds, output, reason).0;
        assert forall|i: int| #![trigger bounds[i]] 0 <= i < bounds.len() implies !after.has_link(
            bounds[i].id,
        ) by {
            if i < front.len() {
                assert(front[i] == bounds[i]);
                assert(!s.has_link(bounds[i].id));
            }
        }
    }
}

/// A socket that failed is gone, and so are all the connections that were on it.
pub proof fn law_a_failed_socket_takes_its_connections(
    state: StateView,
    socket: u32,
    reason: Seq<char>,
)
    requires
        state.wf(),
        state.endpoint_place(socket) < state.endpoints.len(),
    ensures
        ({
            let after = state.failed(socket, reason).0;
            let bounds = state.endpoints[state.endpoint_place(socket)].connections;
            &&& after.wf()
            &&& after.endpoint_place(socket) >= after.endpoints.len()
            &&& forall|i: int|
                #![trigger bounds[i]]
                0 <= i < bounds.len() ==> !after.has_link(bounds[i].id)
        }),
{
    let holds = |endpoint: EndpointView| endpoint.socket == socket;
    lemma_first_place(state.endpoints, holds);
    let place = state.endpoint_place(socket);
    let rest = StateView { endpoints: state.endpoints.remove(place), ..state };
    assert forall|i: int, j: int| 0 <= i < j < rest.endpoints.len() implies (
    #[trigger] rest.endpoints[i]).socket != (#[trigger] rest.endpoints[j]).socket by {
        let a = if i < place {
            i
        } else {
            i + 1
        };
        let b = if j < place {
            j
        } else {
            j + 1
        };
        assert(state.endpoints[a].socket != state.endpoints[b].socket);
    }
    lemma_failed_all(rest, state.endpoints[place].connections, OutputView::empty(), reason);
    let after = state.failed(socket, reason).0;
    lemma_first_place(after.endpoints, holds);
    let found = after.endpoint_place(socket);
    if found < after.endpoints.len() {
        assert(holds(after.endpoints[found]));
        let at = if found < place {
            found
        } else {
            found + 1
        };
        assert(state.endpoints[at].socket == socket);
        assert(state.endpoints[place].socket == socket);
        if at < place {
            assert(state.endpoints[at].socket != state.endpoints[place].socket);
        } else {
            assert(state.endpoints[place].socket != state.endpoints[at].socket);
        }
    }
}

} // verus!
