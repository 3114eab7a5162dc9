//! Endpoints and connections that come and go, and the timers of endpoints.

use crate::quic::event::QuicConnectionId;
use crate::quic::link::Link;
use crate::quic::output::{DriveOutput, TimerArm};
use crate::quic::state::{Bound, EndpointState, State};
#[allow(unused_imports)]
use crate::{
    places::{first_place, lemma_first_place, lemma_first_place_is},
    quic::{
        link::LinkView,
        output::OutputView,
        state::{EndpointView, StateView},
    },
};
use vstd::prelude::*;

verus! {

/// A number of nanoseconds in whole milliseconds, parts of a microsecond
/// dropped and parts of a millisecond rounded up, at least one.
pub open spec fn ceil_ms(nanos: u128) -> u64 {
    let millis = (nanos / 1000 + 999) / 1000;
    if millis < 1 {
        1
    } else if millis > u64::MAX {
        u64::MAX
    } else {
        millis as u64
    }
}

/// A number of nanoseconds in whole milliseconds, parts of a microsecond
/// dropped and parts of a millisecond rounded up, at least one.
pub fn duration_ceil_ms(nanos: u128) -> (millis: u64)
    ensures
        millis == ceil_ms(nanos),
{
    let micros: u128 = nanos / 1000;
    let millis: u128 = micros / 1000 + if micros % 1000 == 0 {
        0
    } else {
        1
    };
    if millis < 1 {
        1
    } else if millis > u64::MAX as u128 {
        u64::MAX
    } else {
        millis as u64
    }
}

/// The next number of an endpoint's timer; zero is never one.
pub open spec fn next_generation(generation: u64) -> u64 {
    if generation == u64::MAX {
        1
    } else {
        (generation + 1) as u64
    }
}

/// The place at which a connection number belongs among ascending ones.
pub open spec fn rank(links: Seq<LinkView>, id: QuicConnectionId) -> int {
    first_place(links, |link: LinkView| link.id.0 >= id.0)
}

impl StateView {
    /// With an endpoint entered; one for the same socket is replaced.
    pub open spec fn with_endpoint(self, endpoint: EndpointView) -> StateView {
        let place = self.endpoint_place(endpoint.socket);
        if place < self.endpoints.len() {
            StateView { endpoints: self.endpoints.update(place, endpoint), ..self }
        } else {
            StateView { endpoints: self.endpoints.push(endpoint), ..self }
        }
    }

    /// With a connection entered in its place; one with the same number is
    /// replaced.
    pub open spec fn with_new_link(self, link: LinkView) -> StateView {
        let place = rank(self.links, link.id);
        if place < self.links.len() && self.links[place].id == link.id {
            StateView { links: self.links.update(place, link), ..self }
        } else {
            StateView { links: self.links.insert(place, link), ..self }
        }
    }

    /// Without a connection, which its endpoint no longer knows either.
    pub open spec fn without(self, socket: u32, bound: Bound) -> StateView {
        let endpoint = self.endpoint_place(socket);
        let endpoints = if endpoint < self.endpoints.len() {
            let connections = self.endpoints[endpoint].connections;
            let place = first_place(connections, |b: Bound| b.handle == bound.handle);
            if place < connections.len() {
                self.endpoints.update(
                    endpoint,
                    EndpointView {
                        connections: connections.remove(place),
                        ..self.endpoints[endpoint]
                    },
                )
            } else {
                self.endpoints
            }
        } else {
            self.endpoints
        };
        let links = if self.has_link(bound.id) {
            self.links.remove(self.link_place(bound.id))
        } else {
            self.links
        };
        StateView { endpoints, links, ..self }
    }

    /// Without several connections.
    pub open spec fn without_all(self, socket: u32, gone: Seq<Bound>) -> StateView
        decreases gone.len(),
    {
        if gone.len() == 0 {
            self
        } else {
            self.without_all(socket, gone.drop_last()).without(socket, gone.last())
        }
    }

    /// An endpoint whose next deadline has changed gets a new timer; one that
    /// neither listens nor has connections goes, and its socket with it.
    pub open spec fn rested(
        self,
        socket: u32,
        deadline: Option<u64>,
        now: u64,
        output: OutputView,
    ) -> (StateView, OutputView) {
        let place = self.endpoint_place(socket);
        if place >= self.endpoints.len() {
            (self, output)
        } else {
            let endpoint = self.endpoints[place];
            let changed = endpoint.timer_deadline != deadline;
            let generation = if changed {
                next_generation(endpoint.timer_generation)
            } else {
                endpoint.timer_generation
            };
            if endpoint.listener is None && endpoint.connections.len() == 0 {
                (
                    StateView { endpoints: self.endpoints.remove(place), ..self },
                    OutputView { timer: None, ..output.close(socket) },
                )
            } else {
                (
                    StateView {
                        endpoints: self.endpoints.update(
                            place,
                            EndpointView {
                                timer_generation: generation,
                                timer_deadline: deadline,
                                ..endpoint
                            },
                        ),
                        ..self
                    },
                    if changed && deadline is Some {
                        OutputView {
                            timer: Some(
                                TimerArm {
                                    socket,
                                    generation,
                                    delay_ms: ceil_ms(
                                        if deadline->0 > now {
                                            (deadline->0 - now) as u128
                                        } else {
                                            0
                                        },
                                    ),
                                },
                            ),
                            ..output
                        }
                    } else {
                        output
                    },
                )
            }
        }
    }
}

impl State {
    /// Enters an endpoint; one for the same socket is replaced, and its place
    /// is returned.
    pub fn put_endpoint(&mut self, endpoint: EndpointState) -> (replaced: Option<usize>)
        requires
            old(self)@.wf(),
        ensures
            final(self)@ == old(self)@.with_endpoint(endpoint@),
            final(self)@.wf(),
            match replaced {
                Some(place) => place < old(self)@.endpoints.len() && final(self)@.endpoints.len()
                    == old(self)@.endpoints.len() && place == old(self)@.endpoint_place(
                    endpoint@.socket,
                ),
                None => final(self)@.endpoints.len() == old(self)@.endpoints.len() + 1 && old(
                    self)@.endpoint_place(endpoint@.socket) == old(self)@.endpoints.len(),
            },
    {
        let ghost before = self@;
        let ghost entered = endpoint@;
        let ghost holds = |e: EndpointView| e.socket == entered.socket;
        let found = self.find_endpoint(endpoint.socket);
        proof {
            lemma_first_place(before.endpoints, holds);
            assert(before.endpoint_place(entered.socket) == first_place(before.endpoints, holds));
        }
        match found {
            Some(place) => {
                self.endpoints.set(place, endpoint);
                assert(self@.endpoints =~= before.endpoints.update(place as int, entered));
            },
            None => {
                self.endpoints.push(endpoint);
                assert(self@.endpoints =~= before.endpoints.push(entered));
            },
        }
        proof {
            assert(self@.links =~= before.links);
            assert forall|i: int, j: int| 0 <= i < j < self@.endpoints.len() implies (
            #[trigger] self@.endpoints[i]).socket != (#[trigger] self@.endpoints[j]).socket by {
                if i < before.endpoints.len() && j < before.endpoints.len() {
                    assert(before.endpoints[i].socket != before.endpoints[j].socket);
                } else {
                    assert(!holds(before.endpoints[i]));
                }
            }
            assert forall|i: int| 0 <= i < self@.links.len() implies (
            #[trigger] self@.links[i]).wf() by {
                assert(before.links[i].wf());
            }
        }
        found
    }

    /// Enters a connection in its place; one with the same number is replaced.
    /// The place is returned, and whether one was replaced.
    pub fn put_link(&mut self, link: Link) -> (entered: (usize, bool))
        requires
            old(self)@.wf(),
            link@.wf(),
        ensures
            final(self)@ == old(self)@.with_new_link(link@),
            final(self)@.wf(),
            entered.0 == rank(old(self)@.links, link@.id),
            entered.0 <= old(self)@.links.len(),
            entered.1 == (entered.0 < old(self)@.links.len()
                && old(self)@.links[entered.0 as int].id == link@.id),
    {
        let ghost before = self@;
        let ghost new = link@;
        let ghost holds = |l: LinkView| l.id.0 >= new.id.0;
        let mut place: usize = 0;
        while place < self.links.len() && self.links[place].id.0 < link.id.0
            invariant
                place <= self.links@.len(),
                *self == *old(self),
                before == self@,
                new == link@,
                holds == (|l: LinkView| l.id.0 >= new.id.0),
                forall|j: int| 0 <= j < place ==> !holds(#[trigger] before.links[j]),
            decreases self.links@.len() - place,
        {
            assert(before.links[place as int] == self.links@[place as int]@);
            place = place + 1;
        }
        proof {
            if place < self.links@.len() {
                assert(before.links[place as int] == self.links@[place as int]@);
            }
            lemma_first_place_is(before.links, holds, place as int);
        }
        let replaced = place < self.links.len() && self.links[place].id == link.id;
        if replaced {
            self.links.set(place, link);
            assert(self@.links =~= before.links.update(place as int, new));
        } else {
            self.links.insert(place, link);
            assert(self@.links =~= before.links.insert(place as int, new));
        }
        proof {
            assert(self@.endpoints =~= before.endpoints);
            assert forall|i: int, j: int| 0 <= i < j < self@.links.len() implies (
            #[trigger] self@.links[i]).id.0 < (#[trigger] self@.links[j]).id.0 by {
                let p = place as int;
                let shift = if replaced {
                    0int
                } else {
                    1int
                };
                let k = if i < p || replaced {
                    i
                } else {
                    i - 1
                };
                let l = if j < p || replaced {
                    j
                } else {
                    j - 1
                };
                if i < p {
                    assert(!holds(before.links[i]));
                }
                if i != p && j != p {
                    assert(before.links[k].id.0 < before.links[l].id.0);
                } else if i == p {
                    if replaced {
                        assert(before.links[p].id.0 < before.links[j].id.0);
                    } else {
                        if l > p {
                            assert(before.links[p].id.0 < before.links[l].id.0);
                        }
                        assert(holds(before.links[p]));
                    }
                }
            }
            assert forall|i: int| 0 <= i < self@.links.len() implies (
            #[trigger] self@.links[i]).wf() by {
                let p = place as int;
                if i != p {
                    let k = if i < p || replaced {
                        i
                    } else {
                        i - 1
                    };
                    assert(before.links[k].wf());
                }
            }
            assert forall|i: int, j: int| 0 <= i < j < self@.endpoints.len() implies (
            #[trigger] self@.endpoints[i]).socket != (#[trigger] self@.endpoints[j]).socket by {
                assert(before.endpoints[i].socket != before.endpoints[j].socket);
            }
        }
        (place, replaced)
    }

    /// Takes a connection out; its endpoint no longer knows it either. The
    /// place where it stood is returned.
    pub fn drop_connection(&mut self, socket: u32, bound: Bound) -> (place: Option<usize>)
        requires
            old(self)@.wf(),
        ensures
            final(self)@ == old(self)@.without(socket, bound),
            final(self)@.wf(),
            match place {
                Some(place) => old(self)@.has_link(bound.id) && place == old(self)@.link_place(
                    bound.id,
                ),
                None => !old(self)@.has_link(bound.id),
            },
            final(self)@.endpoints.len() == old(self)@.endpoints.len(),
    {
        let ghost before = self@;
        if let Some(endpoint) = self.find_endpoint(socket) {
            let ghost connections = self.endpoints@[endpoint as int].connections@;
            let ghost holds = |b: Bound| b.handle == bound.handle;
            let mut i: usize = 0;
            while i < self.endpoints[endpoint].connections.len() && self.endpoints[endpoint].connections[i].handle
                != bound.handle
                invariant
                    endpoint < self.endpoints@.len(),
                    *self == *old(self),
                    connections == self.endpoints@[endpoint as int].connections@,
                    i <= connections.len(),
                    holds == (|b: Bound| b.handle == bound.handle),
                    forall|j: int| 0 <= j < i ==> !holds(#[trigger] connections[j]),
                decreases connections.len() - i,
            {
                i = i + 1;
            }
            proof {
                lemma_first_place_is(connections, holds, i as int);
                assert(before.endpoints[endpoint as int] == self.endpoints@[endpoint as int]@);
            }
            if i < self.endpoints[endpoint].connections.len() {
                self.endpoints[endpoint].connections.remove(i);
            }
            proof {
                assert(self@.endpoints =~= before.without(socket, bound).endpoints);
            }
        }
        proof {
            assert(self@.endpoints =~= before.without(socket, bound).endpoints);
            assert(self@.links =~= before.links);
            self@.lemma_same_sockets(before);
        }
        let ghost middle = self@;
        let found = self.find_link(bound.id);
        if let Some(place) = found {
            self.links.remove(place);
            proof {
                assert(self@.links =~= before.links.remove(place as int));
                assert(self@.endpoints =~= middle.endpoints);
                self@.lemma_fewer_links(middle, place as int);
            }
        }
        found
    }

    /// An endpoint whose next deadline has changed gets a new timer; one that
    /// neither listens nor has connections goes, and its socket with it. The
    /// place of one that went is returned.
    pub fn rest(
        &mut self,
        socket: u32,
        deadline: Option<u64>,
        now: u64,
        output: &mut DriveOutput,
    ) -> (dropped: Option<usize>)
        requires
            old(self)@.wf(),
        ensures
            (final(self)@, final(output)@) == old(self)@.rested(
                socket,
                deadline,
                now,
                old(output)@,
            ),
            final(self)@.wf(),
            final(self)@.links == old(self)@.links,
            match dropped {
                Some(place) => {
                    &&& place == old(self)@.endpoint_place(socket)
                    &&& place < old(self)@.endpoints.len()
                    &&& final(self)@.endpoints.len() == old(self)@.endpoints.len() - 1
                },
                None => final(self)@.endpoints.len() == old(self)@.endpoints.len(),
            },
    {
        let ghost before = self@;
        let place = match self.find_endpoint(socket) {
            None => {
                return None;
            },
            Some(place) => place,
        };
        assert(before.endpoints[place as int] == self.endpoints@[place as int]@);
        let unused = self.endpoints[place].listener.is_none()
            && self.endpoints[place].connections.len() == 0;
        if unused {
            self.endpoints.remove(place);
            output.close(socket);
            output.timer = None;
            proof {
                assert(self@.endpoints =~= before.endpoints.remove(place as int));
                self@.lemma_fewer_endpoints(before, place as int);
                assert(output@ =~= OutputView { timer: None, ..old(output)@.close(socket) });
            }
            return Some(place);
        }
        if self.endpoints[place].timer_deadline != deadline {
            let generation: u64 = if self.endpoints[place].timer_generation == u64::MAX {
                1
            } else {
                self.endpoints[place].timer_generation + 1
            };
            self.endpoints[place].timer_generation = generation;
            self.endpoints[place].timer_deadline = deadline;
            if let Some(at) = deadline {
                let delay: u64 = at.saturating_sub(now);
                output.timer = Some(
                    TimerArm { socket, generation, delay_ms: duration_ceil_ms(delay as u128) },
                );
            }
        }
        proof {
            assert(self@.endpoints =~= before.rested(
                socket,
                deadline,
                now,
                old(output)@,
            ).0.endpoints);
            assert(self@.links =~= before.links);
            self@.lemma_same_sockets(before);
            assert(output@ =~= before.rested(socket, deadline, now, old(output)@).1);
        }
        None
    }
}

impl StateView {
    /// Without one connection, the others stand in order.
    pub proof fn lemma_fewer_links(self, before: StateView, place: int)
        requires
            before.wf(),
            0 <= place < before.links.len(),
            self.links == before.links.remove(place),
            self.endpoints == before.endpoints,
        ensures
            self.wf(),
    {
        assert forall|i: int, j: int| 0 <= i < j < self.links.len() implies (
        #[trigger] self.links[i]).id.0 < (#[trigger] self.links[j]).id.0 by {
            let k = if i < place {
                i
            } else {
                i + 1
            };
            let l = if j < place {
                j
            } else {
                j + 1
            };
            assert(before.links[k].id.0 < before.links[l].id.0);
        }
        assert forall|i: int| 0 <= i < self.links.len() implies (#[trigger] self.links[i]).wf() by {
            let k = if i < place {
                i
            } else {
                i + 1
            };
            assert(before.links[k].wf());
        }
    }
}

} // verus!
