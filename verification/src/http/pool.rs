//! Lists of connections and where they lead.

use crate::http::origin::Origin;
#[allow(unused_imports)]
use crate::http::origin::OriginView;
use crate::http::transport::TransportId;
#[allow(unused_imports)]
use crate::places::{first_place, lemma_first_place_is};
use vstd::prelude::*;

verus! {

/// A connection and where it leads.
#[derive(Debug)]
pub struct Line {
    pub transport: TransportId,
    pub origin: Origin,
}

impl View for Line {
    type V = (TransportId, OriginView);

    open spec fn view(&self) -> (TransportId, OriginView) {
        (self.transport, self.origin@)
    }
}

/// What a list of connections holds.
pub open spec fn lines_view(lines: Seq<Line>) -> Seq<(TransportId, OriginView)> {
    lines.map_values(|l: Line| l@)
}

/// What a list of origins holds.
pub open spec fn origins_view(origins: Seq<Origin>) -> Seq<OriginView> {
    origins.map_values(|o: Origin| o@)
}

/// The connections but for one.
pub open spec fn without_line(
    lines: Seq<(TransportId, OriginView)>,
    transport: TransportId,
) -> Seq<(TransportId, OriginView)>
    decreases lines.len(),
{
    if lines.len() == 0 {
        lines
    } else {
        let rest = without_line(lines.drop_last(), transport);
        if lines.last().0 == transport {
            rest
        } else {
            rest.push(lines.last())
        }
    }
}

/// How many connections lead to an origin.
pub open spec fn lines_to(lines: Seq<(TransportId, OriginView)>, origin: OriginView) -> nat
    decreases lines.len(),
{
    if lines.len() == 0 {
        0
    } else {
        lines_to(lines.drop_last(), origin) + if lines.last().1 == origin {
            1nat
        } else {
            0nat
        }
    }
}

/// How often an origin is listed.
pub open spec fn listed(origins: Seq<OriginView>, origin: OriginView) -> nat
    decreases origins.len(),
{
    if origins.len() == 0 {
        0
    } else {
        listed(origins.drop_last(), origin) + if origins.last() == origin {
            1nat
        } else {
            0nat
        }
    }
}

/// The first place at which a connection leads to an origin, or the length where none does.
pub open spec fn first_to(lines: Seq<(TransportId, OriginView)>, origin: OriginView) -> int {
    first_place(lines, |l: (TransportId, OriginView)| l.1 == origin)
}

/// The first place at which an origin is listed, or the length where it is not.
pub open spec fn first_mention(origins: Seq<OriginView>, origin: OriginView) -> int {
    first_place(origins, |o: OriginView| o == origin)
}

/// The list of origins with the first mention of an origin taken off, where there is one.
pub open spec fn once_less(origins: Seq<OriginView>, origin: OriginView) -> Seq<OriginView> {
    let place = first_mention(origins, origin);
    if place < origins.len() {
        origins.remove(place)
    } else {
        origins
    }
}

/// Where a connection stands in a list.
pub open spec fn lists(lines: Seq<(TransportId, OriginView)>, transport: TransportId) -> bool {
    exists|i: int| 0 <= i < lines.len() && #[trigger] lines[i].0 == transport
}

/// Takes a connection off a list.
pub fn remove_line(lines: &mut Vec<Line>, transport: TransportId)
    ensures
        lines_view(final(lines)@) == without_line(lines_view(old(lines)@), transport),
{
    let ghost all = lines_view(lines@);
    let mut kept: Vec<Line> = Vec::new();
    let ghost mut done: int = 0;
    assert(all.take(0) =~= Seq::empty());
    assert(lines_view(kept@) =~= Seq::empty());
    assert(lines_view(lines@) =~= all.skip(0));
    while lines.len() > 0
        invariant
            0 <= done <= all.len(),
            lines_view(lines@) == all.skip(done),
            lines@.len() == all.len() - done,
            lines_view(kept@) == without_line(all.take(done), transport),
        decreases lines@.len(),
    {
        let ghost before = lines@;
        let line = lines.remove(0);
        assert(all.take(done + 1).drop_last() =~= all.take(done));
        assert(all.skip(done)[0] == line@);
        assert(all.take(done + 1).last() == line@);
        if line.transport != transport {
            let ghost shorter = kept@;
            kept.push(line);
            assert(lines_view(kept@) =~= lines_view(shorter).push(line@));
        }
        assert(lines_view(lines@) =~= lines_view(before).skip(1));
        assert(lines_view(before).skip(1) =~= all.skip(done + 1));
        proof {
            done = done + 1;
        }
    }
    assert(all.take(done) =~= all);
    *lines = kept;
}

/// How many connections lead to an origin.
pub fn count_lines(lines: &Vec<Line>, origin: &Origin) -> (count: usize)
    ensures
        count == lines_to(lines_view(lines@), origin@),
{
    let ghost all = lines_view(lines@);
    let mut count: usize = 0;
    let mut i: usize = 0;
    while i < lines.len()
        invariant
            i <= lines@.len(),
            all == lines_view(lines@),
            count <= i,
            count == lines_to(all.take(i as int), origin@),
        decreases lines@.len() - i,
    {
        assert(all.take(i + 1).drop_last() =~= all.take(i as int));
        assert(all.take(i + 1).last() == lines@[i as int]@);
        if lines[i].origin.same(origin) {
            count += 1;
        }
        i += 1;
    }
    assert(all.take(i as int) =~= all);
    count
}

/// How often an origin is listed.
pub fn count_origin(origins: &Vec<Origin>, origin: &Origin) -> (count: usize)
    ensures
        count == listed(origins_view(origins@), origin@),
{
    let ghost all = origins_view(origins@);
    let mut count: usize = 0;
    let mut i: usize = 0;
    while i < origins.len()
        invariant
            i <= origins@.len(),
            all == origins_view(origins@),
            count <= i,
            count == listed(all.take(i as int), origin@),
        decreases origins@.len() - i,
    {
        assert(all.take(i + 1).drop_last() =~= all.take(i as int));
        assert(all.take(i + 1).last() == origins@[i as int]@);
        if origins[i].same(origin) {
            count += 1;
        }
        i += 1;
    }
    assert(all.take(i as int) =~= all);
    count
}

/// Looks for the first connection that leads to an origin.
pub fn find_line(lines: &Vec<Line>, origin: &Origin) -> (place: usize)
    ensures
        place == first_to(lines_view(lines@), origin@),
        place <= lines@.len(),
        place < lines@.len() ==> lines@[place as int].origin@ == origin@,
{
    let ghost all = lines_view(lines@);
    let ghost holds = |l: (TransportId, OriginView)| l.1 == origin@;
    let mut i: usize = 0;
    while i < lines.len() && !lines[i].origin.same(origin)
        invariant
            i <= lines@.len(),
            all == lines_view(lines@),
            holds == |l: (TransportId, OriginView)| l.1 == origin@,
            forall|k: int| 0 <= k < i ==> !holds(#[trigger] all[k]),
        decreases lines@.len() - i,
    {
        assert(all[i as int] == lines@[i as int]@);
        i += 1;
    }
    proof {
        if i < lines@.len() {
            assert(all[i as int] == lines@[i as int]@);
        }
        lemma_first_place_is(all, holds, i as int);
    }
    i
}

/// Takes the first mention of an origin off a list.
pub fn remove_origin(origins: &mut Vec<Origin>, origin: &Origin)
    ensures
        origins_view(final(origins)@) == once_less(origins_view(old(origins)@), origin@),
{
    let ghost all = origins_view(origins@);
    let ghost holds = |o: OriginView| o == origin@;
    let mut i: usize = 0;
    while i < origins.len() && !origins[i].same(origin)
        invariant
            i <= origins@.len(),
            origins@ == old(origins)@,
            all == origins_view(origins@),
            holds == |o: OriginView| o == origin@,
            forall|k: int| 0 <= k < i ==> !holds(#[trigger] all[k]),
        decreases origins@.len() - i,
    {
        assert(all[i as int] == origins@[i as int]@);
        i += 1;
    }
    proof {
        if i < origins@.len() {
            assert(all[i as int] == origins@[i as int]@);
        }
        lemma_first_place_is(all, holds, i as int);
    }
    if i < origins.len() {
        let _ = origins.remove(i);
        assert(origins_view(origins@) =~= all.remove(i as int));
    }
}

/// What a connection that is taken off a list leaves out is that connection and nothing else.
pub proof fn lemma_without_line(lines: Seq<(TransportId, OriginView)>, transport: TransportId)
    ensures
        !lists(without_line(lines, transport), transport),
        !lists(lines, transport) ==> without_line(lines, transport) == lines,
        without_line(lines, transport).len() <= lines.len(),
        forall|other: TransportId|
            other != transport ==> #[trigger] lists(without_line(lines, transport), other)
                == lists(lines, other),
    decreases lines.len(),
{
    if lines.len() > 0 {
        let front = lines.drop_last();
        let rest = without_line(front, transport);
        lemma_without_line(front, transport);
        let result = without_line(lines, transport);
        assert(lines =~= front.push(lines.last()));
        if !lists(lines, transport) {
            assert(!lists(front, transport)) by {
                if lists(front, transport) {
                    let i = choose|i: int| 0 <= i < front.len() && #[trigger] front[i].0
                        == transport;
                    assert(lines[i].0 == transport);
                }
            }
            assert(lines[lines.len() - 1].0 != transport);
        }
        assert(!lists(result, transport)) by {
            if lists(result, transport) {
                let i = choose|i: int| 0 <= i < result.len() && #[trigger] result[i].0
                    == transport;
                if i < rest.len() {
                    assert(rest[i].0 == transport);
                }
            }
        }
        assert forall|other: TransportId| other != transport implies lists(result, other) == lists(
            lines,
            other,
        ) by {
            assert(lists(without_line(front, transport), other) == lists(front, other));
            if lists(lines, other) {
                let i = choose|i: int| 0 <= i < lines.len() && #[trigger] lines[i].0 == other;
                if i < front.len() {
                    assert(front[i].0 == other);
                    assert(lists(front, other));
                    let k = choose|k: int| 0 <= k < rest.len() && #[trigger] rest[k].0 == other;
                    assert(result[k].0 == other);
                } else {
                    assert(result[result.len() - 1].0 == other);
                }
            }
            if lists(result, other) {
                let i = choose|i: int| 0 <= i < result.len() && #[trigger] result[i].0 == other;
                if i < rest.len() {
                    assert(rest[i].0 == other);
                    assert(lists(rest, other));
                    let k = choose|k: int| 0 <= k < front.len() && #[trigger] front[k].0 == other;
                    assert(lines[k].0 == other);
                } else {
                    assert(lines[lines.len() - 1].0 == other);
                }
            }
        }
    }
}

} // verus!
