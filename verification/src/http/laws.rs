//! What holds of the client whatever it is asked.

#[allow(unused_imports)]
use crate::http::client::{without_exchange, ClientView, StartRequestView};
#[allow(unused_imports)]
use crate::http::effect::EffectView;
#[allow(unused_imports)]
use crate::http::error::HttpErrorView;
#[allow(unused_imports)]
use crate::http::origin::{origin_of, OriginView};
#[allow(unused_imports)]
use crate::http::pool::{
    first_mention, first_to, lemma_without_line, lines_to, listed, lists, once_less, without_line,
};
#[allow(unused_imports)]
use crate::http::call::RequestView;
#[allow(unused_imports)]
use crate::http::start::{HeadView, PreparedView};
use crate::http::transport::TransportId;
use crate::net::socket::Pending;
use vstd::prelude::*;

verus! {

/// A list of connections without one leads nowhere more often than before.
proof fn lemma_fewer_lines(
    lines: Seq<(TransportId, OriginView)>,
    transport: TransportId,
    origin: OriginView,
)
    ensures
        without_line(lines, transport).len() <= lines.len(),
        lines_to(without_line(lines, transport), origin) <= lines_to(lines, origin),
    decreases lines.len(),
{
    if lines.len() > 0 {
        let front = lines.drop_last();
        lemma_fewer_lines(front, transport, origin);
        let rest = without_line(front, transport);
        if lines.last().0 != transport {
            assert(rest.push(lines.last()).drop_last() =~= rest);
        }
    }
}

/// One more connection leads to its origin once more, and nowhere else.
proof fn lemma_one_more_line(
    lines: Seq<(TransportId, OriginView)>,
    line: (TransportId, OriginView),
    origin: OriginView,
)
    ensures
        lines_to(lines.push(line), origin) == lines_to(lines, origin) + if line.1 == origin {
            1nat
        } else {
            0nat
        },
{
    assert(lines.push(line).drop_last() =~= lines);
}

/// An origin that is listed once more.
proof fn lemma_listed_once_more(origins: Seq<OriginView>, one: OriginView, origin: OriginView)
    ensures
        listed(origins.push(one), origin) == listed(origins, origin) + if one == origin {
            1nat
        } else {
            0nat
        },
{
    assert(origins.push(one).drop_last() =~= origins);
}

/// How often an origin is listed in two lists together.
proof fn lemma_listed_together(first: Seq<OriginView>, second: Seq<OriginView>, origin: OriginView)
    ensures
        listed(first + second, origin) == listed(first, origin) + listed(second, origin),
    decreases second.len(),
{
    if second.len() == 0 {
        assert(first + second =~= first);
    } else {
        assert((first + second).drop_last() =~= first + second.drop_last());
        lemma_listed_together(first, second.drop_last(), origin);
    }
}

/// An origin that is listed has a first place.
proof fn lemma_listed_place(origins: Seq<OriginView>, origin: OriginView)
    ensures
        0 <= first_mention(origins, origin) <= origins.len(),
        listed(origins, origin) > 0 <==> first_mention(origins, origin) < origins.len(),
        first_mention(origins, origin) < origins.len() ==> origins[first_mention(origins, origin)]
            == origin,
    decreases origins.len(),
{
    if origins.len() > 0 {
        lemma_listed_place(origins.drop_last(), origin);
    }
}

/// Taking one mention of an origin off a list takes just that off.
proof fn lemma_once_less(origins: Seq<OriginView>, one: OriginView, origin: OriginView)
    ensures
        listed(origins, one) > 0 ==> {
            &&& once_less(origins, one).len() == origins.len() - 1
            &&& listed(once_less(origins, one), origin) + (if one == origin {
                1nat
            } else {
                0nat
            }) == listed(origins, origin)
        },
        listed(origins, one) == 0 ==> once_less(origins, one) == origins,
{
    let place = first_mention(origins, one);
    lemma_listed_place(origins, one);
    if place < origins.len() {
        let front = origins.take(place);
        let back = origins.skip(place + 1);
        let middle = seq![one];
        assert(origins =~= front + middle + back);
        assert(origins.remove(place) =~= front + back);
        lemma_listed_together(front + middle, back, origin);
        lemma_listed_together(front, middle, origin);
        lemma_listed_together(front, back, origin);
        assert(middle.drop_last() =~= Seq::empty());
        assert(listed(middle.drop_last(), origin) == 0);
        assert(listed(middle, origin) == if one == origin {
            1nat
        } else {
            0nat
        });
    }
}

impl ClientView {
    /// No more connections are open or being made than are allowed, in all and to one origin.
    pub open spec fn within_limits(self) -> bool {
        &&& self.lines.len() + self.connecting.len() <= self.config.max_connections
        &&& forall|origin: OriginView|
            #![trigger lines_to(self.lines, origin)]
            lines_to(self.lines, origin) + listed(self.connecting, origin)
                <= self.config.max_connections_per_origin
    }

    /// No more idle connections are kept than are allowed, in all and to one origin.
    pub open spec fn idle_within_limits(self) -> bool {
        &&& self.idle.len() <= self.config.max_idle_connections
        &&& forall|origin: OriginView|
            #![trigger lines_to(self.idle, origin)]
            lines_to(self.idle, origin) <= self.config.max_idle_connections_per_origin
    }
}

/// Forgetting a connection keeps the limits.
pub proof fn law_forgetting_keeps_the_limits(client: ClientView, transport: TransportId)
    ensures
        client.within_limits() ==> client.forgot(transport).within_limits(),
        client.idle_within_limits() ==> client.forgot(transport).idle_within_limits(),
{
    let after = client.forgot(transport);
    if client.within_limits() {
        assert forall|origin: OriginView|
            #![trigger lines_to(after.lines, origin)]
            lines_to(after.lines, origin) + listed(after.connecting, origin)
                <= after.config.max_connections_per_origin by {
            lemma_fewer_lines(client.lines, transport, origin);
            assert(lines_to(client.lines, origin) + listed(client.connecting, origin)
                <= client.config.max_connections_per_origin);
        }
        lemma_fewer_lines(client.lines, transport, arbitrary());
    }
    if client.idle_within_limits() {
        assert forall|origin: OriginView|
            #![trigger lines_to(after.idle, origin)]
            lines_to(after.idle, origin) <= after.config.max_idle_connections_per_origin by {
            lemma_fewer_lines(client.idle, transport, origin);
            assert(lines_to(client.idle, origin) <= client.config.max_idle_connections_per_origin);
        }
        lemma_fewer_lines(client.idle, transport, arbitrary());
    }
}

/// Giving an exchange up keeps the limits.
pub proof fn law_canceling_keeps_the_limits(client: ClientView, id: u64)
    ensures
        client.within_limits() ==> client.canceled(id).within_limits(),
        client.idle_within_limits() ==> client.canceled(id).idle_within_limits(),
{
    if client.exchanges.dom().contains(id) {
        let without = ClientView {
            exchanges: client.exchanges.remove(id),
            started: without_exchange(client.started, id),
            ..client
        };
        if client.within_limits() {
            assert forall|origin: OriginView|
                #![trigger lines_to(without.lines, origin)]
                lines_to(without.lines, origin) + listed(without.connecting, origin)
                    <= without.config.max_connections_per_origin by {
                assert(lines_to(client.lines, origin) + listed(client.connecting, origin)
                    <= client.config.max_connections_per_origin);
            }
            assert(without.within_limits());
        }
        if client.idle_within_limits() {
            assert forall|origin: OriginView|
                #![trigger lines_to(without.idle, origin)]
                lines_to(without.idle, origin)
                    <= without.config.max_idle_connections_per_origin by {
                assert(lines_to(client.idle, origin)
                    <= client.config.max_idle_connections_per_origin);
            }
            assert(without.idle_within_limits());
        }
        law_forgetting_keeps_the_limits(without, client.exchanges[id].transport);
    }
}

/// An exchange that needs its connection no longer does not make the idle ones too many.
pub proof fn law_recycling_keeps_the_limits(
    client: ClientView,
    transport: TransportId,
    origin: OriginView,
    reusable: bool,
)
    ensures
        client.within_limits() ==> client.recycled(transport, origin, reusable).within_limits(),
        client.idle_within_limits() ==> client.recycled(
            transport,
            origin,
            reusable,
        ).idle_within_limits(),
{
    let after = client.recycled(transport, origin, reusable);
    if reusable && client.keeps_idle(origin) {
        if client.within_limits() {
            assert forall|other: OriginView|
                #![trigger lines_to(after.lines, other)]
                lines_to(after.lines, other) + listed(after.connecting, other)
                    <= after.config.max_connections_per_origin by {
                assert(lines_to(client.lines, other) + listed(client.connecting, other)
                    <= client.config.max_connections_per_origin);
            }
        }
        if client.idle_within_limits() {
            assert forall|other: OriginView|
                #![trigger lines_to(after.idle, other)]
                lines_to(after.idle, other) <= after.config.max_idle_connections_per_origin by {
                lemma_one_more_line(client.idle, (transport, origin), other);
                assert(lines_to(client.idle, other)
                    <= client.config.max_idle_connections_per_origin);
            }
        }
    } else {
        law_forgetting_keeps_the_limits(client, transport);
    }
}

/// What a connection that is in use changes leaves the limits alone.
proof fn lemma_engaging_keeps(
    client: ClientView,
    prepared: PreparedView,
    transport: TransportId,
    alive: bool,
    head: HeadView,
    effects: Seq<EffectView>,
)
    requires
        client.within_limits(),
    ensures
        client.engaged(prepared, transport, alive, head, effects).client.within_limits(),
{
    let after = client.engaged(prepared, transport, alive, head, effects).client;
    law_forgetting_keeps_the_limits(client, transport);
    if alive && head is Ok {
        assert forall|origin: OriginView|
            #![trigger lines_to(after.lines, origin)]
            lines_to(after.lines, origin) + listed(after.connecting, origin)
                <= after.config.max_connections_per_origin by {
            assert(lines_to(client.lines, origin) + listed(client.connecting, origin)
                <= client.config.max_connections_per_origin);
        }
    }
}

/// However a start goes, no more connections are open or being made than are allowed.
pub proof fn law_starting_keeps_the_limits(
    client: ClientView,
    token: u64,
    alive: bool,
    pending: Pending,
    request: StartRequestView,
    effects: Seq<EffectView>,
    refusal: Option<HttpErrorView>,
    of: Option<RequestView>,
    head: HeadView,
)
    requires
        client.within_limits(),
    ensures
        client.starting(
            token,
            alive,
            pending,
            request,
            effects,
            refusal,
            of,
            head,
        ).client.within_limits(),
{
    let after = client.starting(token, alive, pending, request, effects, refusal, of, head).client;
    if client.stopped(token, alive, pending, request, effects) is Some {
        assert forall|origin: OriginView|
            #![trigger lines_to(after.lines, origin)]
            lines_to(after.lines, origin) + listed(after.connecting, origin)
                <= after.config.max_connections_per_origin by {
            assert(lines_to(client.lines, origin) + listed(client.connecting, origin)
                <= client.config.max_connections_per_origin);
        }
    } else if refusal is None {
        let origin = origin_of(request.uri)->Ok_0;
        if client.has_idle(origin) {
            let taken = client.idle_taken(origin);
            assert forall|other: OriginView|
                #![trigger lines_to(taken.lines, other)]
                lines_to(taken.lines, other) + listed(taken.connecting, other)
                    <= taken.config.max_connections_per_origin by {
                assert(lines_to(client.lines, other) + listed(client.connecting, other)
                    <= client.config.max_connections_per_origin);
            }
            assert(taken.within_limits());
            lemma_engaging_keeps(
                taken,
                PreparedView { token, pending, origin, spec: request.spec, of },
                client.idle[first_to(client.idle, origin)].0,
                alive,
                head,
                effects,
            );
        } else {
            assert(client.has_room(origin));
            assert forall|other: OriginView|
                #![trigger lines_to(after.lines, other)]
                lines_to(after.lines, other) + listed(after.connecting, other)
                    <= after.config.max_connections_per_origin by {
                lemma_listed_once_more(client.connecting, origin, other);
                assert(lines_to(client.lines, other) + listed(client.connecting, other)
                    <= client.config.max_connections_per_origin);
            }
        }
    }
}

/// A connection that was made takes the place of the one that was being made.
pub proof fn law_connecting_keeps_the_limits(
    client: ClientView,
    prepared: PreparedView,
    connected: Result<TransportId, HttpErrorView>,
    alive: bool,
    head: HeadView,
    effects: Seq<EffectView>,
)
    requires
        client.within_limits(),
        listed(client.connecting, prepared.origin) > 0,
    ensures
        client.connecting_done(prepared, connected, alive, head, effects).client.within_limits(),
{
    let less = ClientView {
        connecting: once_less(client.connecting, prepared.origin),
        ..client
    };
    lemma_once_less(client.connecting, prepared.origin, prepared.origin);
    assert forall|other: OriginView|
        #![trigger lines_to(less.lines, other)]
        lines_to(less.lines, other) + listed(less.connecting, other)
            <= less.config.max_connections_per_origin by {
        lemma_once_less(client.connecting, prepared.origin, other);
        assert(lines_to(client.lines, other) + listed(client.connecting, other)
            <= client.config.max_connections_per_origin);
    }
    assert(less.within_limits());
    match connected {
        Ok(transport) => {
            let open = ClientView {
                lines: without_line(less.lines, transport).push((transport, prepared.origin)),
                ..less
            };
            assert forall|other: OriginView|
                #![trigger lines_to(open.lines, other)]
                lines_to(open.lines, other) + listed(open.connecting, other)
                    <= open.config.max_connections_per_origin by {
                lemma_once_less(client.connecting, prepared.origin, other);
                lemma_fewer_lines(less.lines, transport, other);
                lemma_one_more_line(
                    without_line(less.lines, transport),
                    (transport, prepared.origin),
                    other,
                );
                assert(lines_to(client.lines, other) + listed(client.connecting, other)
                    <= client.config.max_connections_per_origin);
            }
            lemma_fewer_lines(less.lines, transport, prepared.origin);
            assert(open.within_limits());
            lemma_engaging_keeps(open, prepared, transport, alive, head, effects);
        },
        Err(_) => {},
    }
}

/// A connection that was forgotten is nowhere any more.
pub proof fn law_a_forgotten_connection_is_gone(client: ClientView, transport: TransportId)
    ensures
        !lists(client.forgot(transport).lines, transport),
        !lists(client.forgot(transport).idle, transport),
        !client.forgot(transport).active.dom().contains(transport.number()),
        !client.forgot(transport).generations.dom().contains(transport.number()),
        client.forgot(transport).forgot(transport) == client.forgot(transport),
{
    lemma_without_line(client.lines, transport);
    lemma_without_line(client.idle, transport);
    let once = client.forgot(transport);
    lemma_without_line(once.lines, transport);
    lemma_without_line(once.idle, transport);
    assert(once.forgot(transport) =~= once);
}

/// An exchange that was given up is gone, and with it its connection.
pub proof fn law_a_canceled_exchange_is_gone(client: ClientView, id: u64)
    requires
        client.exchanges.dom().contains(id),
    ensures
        !client.canceled(id).exchanges.dom().contains(id),
        !lists(client.canceled(id).lines, client.exchanges[id].transport),
        !lists(client.canceled(id).idle, client.exchanges[id].transport),
        client.canceled(id).canceled(id) == client.canceled(id),
{
    lemma_without_line(client.lines, client.exchanges[id].transport);
    lemma_without_line(client.idle, client.exchanges[id].transport);
}

/// Connections are used again in the order in which they became idle.
pub proof fn law_idle_connections_are_used_in_order(
    client: ClientView,
    transport: TransportId,
    origin: OriginView,
)
    requires
        client.has_idle(origin),
        client.keeps_idle(origin),
    ensures
        client.recycled(transport, origin, true).has_idle(origin),
        first_to(client.recycled(transport, origin, true).idle, origin) == first_to(
            client.idle,
            origin,
        ),
{
    let longer = client.idle.push((transport, origin));
    assert(longer.drop_last() =~= client.idle);
}

} // verus!
